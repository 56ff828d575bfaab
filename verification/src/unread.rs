use vstd::prelude::*;
use vstd::string::*;
use crate::labelmap::LabelMap;
use crate::messengers::{display_name_of, find_messenger, is_builtin_label, label_of, BuiltinMessenger};
use crate::text::{dec_digits, push_dec, push_str, string_of};

verus! {

// ---------------------------------------------------------------------------
// Unread counts
// ---------------------------------------------------------------------------

/// The most unread messages a messenger is recorded with.
pub open spec fn max_unread() -> u32 {
    10_000
}

/// The unread count of each built-in messenger, as its inject script last
/// reported it. Only built-in messengers have an entry, never above 10 000.
pub struct UnreadCounts {
    counts: LabelMap<u32>,
}

/// What a report of an unread count did.
#[derive(Clone, Copy, PartialEq, Eq, Structural, Debug)]
pub enum UnreadUpdate {
    /// The messenger is not a built-in one; nothing was recorded.
    Rejected,
    /// The count was already the recorded one.
    Unchanged,
    /// The count changed from `previous`; the tray, the sidebar and the
    /// notification logic must hear of it.
    Changed { previous: u32, count: u32 },
}

/// The count recorded for a label, zero when there is none.
pub open spec fn count_in(m: Map<Seq<char>, u32>, label: Seq<char>) -> u32 {
    if m.contains_key(label) {
        m[label]
    } else {
        0
    }
}

impl View for UnreadCounts {
    type V = Map<Seq<char>, u32>;

    closed spec fn view(&self) -> Map<Seq<char>, u32> {
        self.counts@
    }
}

impl UnreadCounts {
    /// Holds only built-in messengers, with at most 10 000 each.
    #[verifier::type_invariant]
    spec fn inv(self) -> bool {
        forall|k: Seq<char>| #[trigger] self.counts@.contains_key(k) ==> is_builtin_label(k) && self.counts@[k] <= max_unread()
    }

    /// Nothing unread anywhere.
    pub fn new() -> (r: UnreadCounts)
        ensures
            r@ == Map::<Seq<char>, u32>::empty(),
    {
        UnreadCounts { counts: LabelMap::new() }
    }

    /// The recorded count of a messenger, zero when it has none.
    pub fn count(&self, label: &str) -> (r: u32)
        ensures
            r == count_in(self@, label@),
            r <= max_unread(),
    {
        proof {
            use_type_invariant(self);
        }
        match self.counts.get(label) {
            Some(c) => c,
            None => 0,
        }
    }

    /// Records a count reported by a messenger's page: unknown messengers are
    /// refused, counts are capped at 10 000, and an unchanged count changes
    /// nothing.
    pub fn update(&mut self, messenger: &str, count: u32) -> (r: UnreadUpdate)
        ensures
            !is_builtin_label(messenger@) ==> r == UnreadUpdate::Rejected && final(self)@ == old(self)@,
            is_builtin_label(messenger@) ==> {
                let capped = if count < max_unread() { count } else { max_unread() };
                let previous = count_in(old(self)@, messenger@);
                if previous == capped {
                    r == UnreadUpdate::Unchanged && final(self)@ == old(self)@
                } else {
                    &&& r == (UnreadUpdate::Changed { previous, count: capped })
                    &&& final(self)@ == old(self)@.insert(messenger@, capped)
                }
            },
    {
        proof {
            use_type_invariant(&*self);
        }
        if find_messenger(messenger).is_none() {
            return UnreadUpdate::Rejected;
        }
        let capped = if count < 10_000 { count } else { 10_000 };
        let previous = self.count(messenger);
        if previous == capped {
            return UnreadUpdate::Unchanged;
        }
        let mut counts = LabelMap::new();
        std::mem::swap(&mut counts, &mut self.counts);
        counts.insert(String::from_str(messenger), capped);
        self.counts = counts;
        UnreadUpdate::Changed { previous, count: capped }
    }

    /// Whether nothing is unread in any messenger; the tray icon is then drawn
    /// dim (as a template image) rather than in full color.
    pub fn all_read(&self) -> (r: bool)
        ensures
            r == forall|k: Seq<char>| #[trigger] self@.contains_key(k) ==> self@[k] == 0,
    {
        proof {
            use_type_invariant(self);
        }
        let t = self.count("telegram");
        let w = self.count("whatsapp");
        proof {
            if t == 0 && w == 0 {
                assert forall|k: Seq<char>| #[trigger] self@.contains_key(k) implies self@[k] == 0 by {
                    assert(is_builtin_label(k));
                }
            } else if t != 0 {
                assert(self@.contains_key("telegram"@));
            } else {
                assert(self@.contains_key("whatsapp"@));
            }
        }
        t == 0 && w == 0
    }
}

// ---------------------------------------------------------------------------
// Notifications
// ---------------------------------------------------------------------------

/// Where the notifications of one messenger stand.
#[derive(Clone, Copy, PartialEq, Eq, Structural, Debug, Default)]
pub struct NotifyState {
    /// Highest count already shown in the Notification Center; lowered to the
    /// current value when the count drops, so the next rise notifies afresh.
    pub last_notified: u32,
    /// Bumped (wrapping) on every change; the debounce task fires only once it
    /// has stayed the same for a whole window.
    pub pending_gen: u64,
    /// A debounce task is running for this messenger.
    pub in_flight: bool,
    /// When the last notification of this messenger was shown, in milliseconds
    /// since the Unix epoch; none shown yet.
    pub last_shown_ms: Option<u64>,
}

/// The state of a messenger that has none yet.
pub open spec fn fresh_state() -> NotifyState {
    NotifyState { last_notified: 0, pending_gen: 0, in_flight: false, last_shown_ms: None }
}

/// The state recorded for a messenger, or a fresh one.
pub open spec fn state_in(m: Map<Seq<char>, NotifyState>, label: Seq<char>) -> NotifyState {
    if m.contains_key(label) {
        m[label]
    } else {
        fresh_state()
    }
}

/// `pending_gen + 1`, wrapping.
pub open spec fn next_gen(g: u64) -> u64 {
    if g == u64::MAX {
        0
    } else {
        (g + 1) as u64
    }
}

/// How a change of the unread count from `previous` to `count` moves the state,
/// and whether a debounce task must be started:
/// - a drop (or zero) lowers the baseline to `count` and cancels any pending
///   notification;
/// - a count already announced changes nothing;
/// - a rise bumps the generation, and starts a task unless one is running.
pub open spec fn notify_step(s: NotifyState, count: u32, previous: u32) -> (NotifyState, bool) {
    if count == 0 || count < previous {
        (NotifyState { last_notified: count, pending_gen: next_gen(s.pending_gen), ..s }, false)
    } else if count <= s.last_notified {
        (s, false)
    } else if s.in_flight {
        (NotifyState { pending_gen: next_gen(s.pending_gen), ..s }, false)
    } else {
        (NotifyState { pending_gen: next_gen(s.pending_gen), in_flight: true, ..s }, true)
    }
}

/// A notification to show.
pub struct Notification {
    pub title: String,
    pub body: String,
}

/// `You have 1 unread message` / `You have <n> unread messages`.
pub open spec fn notification_body(count: u32) -> Seq<char> {
    if count == 1 {
        "You have 1 unread message"@
    } else {
        "You have "@ + dec_digits(count as nat) + " unread messages"@
    }
}

/// The name a messenger is announced under: a built-in messenger's display
/// name, or the label itself.
pub open spec fn announced_name(label: Seq<char>) -> Seq<char> {
    if label == "telegram"@ {
        display_name_of(BuiltinMessenger::Telegram)
    } else if label == "whatsapp"@ {
        display_name_of(BuiltinMessenger::WhatsApp)
    } else {
        label
    }
}

/// The notification state of every messenger.
pub struct NotifyTracker(pub LabelMap<NotifyState>);

impl NotifyTracker {
    /// No messenger has a state yet.
    pub fn new() -> (r: NotifyTracker)
        ensures
            r.0@ == Map::<Seq<char>, NotifyState>::empty(),
    {
        NotifyTracker(LabelMap::new())
    }

    /// The recorded state of a messenger, or a fresh one.
    pub fn state(&self, messenger: &str) -> (r: NotifyState)
        ensures
            r == state_in(self.0@, messenger@),
    {
        match self.0.get(messenger) {
            Some(s) => s,
            None => NotifyState { last_notified: 0, pending_gen: 0, in_flight: false, last_shown_ms: None },
        }
    }

    /// Takes in a change of the unread count (see `notify_step`); true when the
    /// caller must start the debounce task for this messenger.
    pub fn on_count_change(&mut self, messenger: &str, count: u32, previous: u32) -> (start_task: bool)
        ensures
            final(self).0@ == old(self).0@.insert(messenger@, notify_step(state_in(old(self).0@, messenger@), count, previous).0),
            start_task == notify_step(state_in(old(self).0@, messenger@), count, previous).1,
            state_in(final(self).0@, messenger@) == apply_event(
                state_in(old(self).0@, messenger@),
                NotifyEvent::Change { count, previous },
            ).0,
    {
        let s = self.state(messenger);
        let g = s.pending_gen.wrapping_add(1);
        let (next, start) = if count == 0 || count < previous {
            (NotifyState { last_notified: count, pending_gen: g, in_flight: s.in_flight, last_shown_ms: s.last_shown_ms }, false)
        } else if count <= s.last_notified {
            (s, false)
        } else if s.in_flight {
            (NotifyState { last_notified: s.last_notified, pending_gen: g, in_flight: true, last_shown_ms: s.last_shown_ms }, false)
        } else {
            (NotifyState { last_notified: s.last_notified, pending_gen: g, in_flight: true, last_shown_ms: s.last_shown_ms }, true)
        };
        self.0.insert(String::from_str(messenger), next);
        start
    }

    /// The generation the debounce task compares across its sleep (0 for a
    /// messenger without a state).
    pub fn pending_gen(&self, messenger: &str) -> (r: u64)
        ensures
            r == (if self.0@.contains_key(messenger@) { self.0@[messenger@].pending_gen } else { 0 }),
    {
        match self.0.get(messenger) {
            Some(s) => s.pending_gen,
            None => 0,
        }
    }

    /// The debounce task is done: the messenger's slot is free again.
    pub fn release(&mut self, messenger: &str)
        ensures
            final(self).0@ == (if old(self).0@.contains_key(messenger@) {
                old(self).0@.insert(messenger@, NotifyState { in_flight: false, ..old(self).0@[messenger@] })
            } else {
                old(self).0@
            }),
            state_in(final(self).0@, messenger@) == apply_event(state_in(old(self).0@, messenger@), NotifyEvent::Release).0,
    {
        match self.0.get(messenger) {
            Some(s) => {
                self.0.insert(String::from_str(messenger), NotifyState { in_flight: false, ..s });
            },
            None => {},
        }
    }

    /// After the debounce window settled, at `now_ms` milliseconds since the
    /// Unix epoch: decides whether `current_count` is announced. Nothing is
    /// shown for zero, in silence mode, or while the main window has focus; nor
    /// for a count no higher than the last one shown, nor within five seconds of
    /// the messenger's last notification. Otherwise the count becomes the last
    /// one shown, `now_ms` the time of the last notification, and the
    /// notification is returned.
    pub fn claim_notification(
        &mut self,
        messenger: &str,
        current_count: u32,
        silenced: bool,
        window_focused: bool,
        now_ms: u64,
    ) -> (r: Option<Notification>)
        ensures
            (current_count == 0 || silenced || window_focused) ==> r is None && final(self).0@ == old(self).0@,
            !(current_count == 0 || silenced || window_focused) ==> {
                let s = state_in(old(self).0@, messenger@);
                &&& final(self).0@ == old(self).0@.insert(messenger@, claim_step(s, current_count, now_ms).0)
                &&& (r is Some <==> claim_step(s, current_count, now_ms).1)
                &&& r matches Some(n) ==> n.title@ == "New message on "@ + announced_name(messenger@)
                    && n.body@ == notification_body(current_count)
            },
            state_in(final(self).0@, messenger@) == apply_event(
                state_in(old(self).0@, messenger@),
                NotifyEvent::Claim { count: current_count, silenced, focused: window_focused, now_ms },
            ).0,
            (r is Some) == apply_event(
                state_in(old(self).0@, messenger@),
                NotifyEvent::Claim { count: current_count, silenced, focused: window_focused, now_ms },
            ).1,
    {
        if current_count == 0 || silenced || window_focused {
            return None;
        }
        let s = self.state(messenger);
        let cooling = match s.last_shown_ms {
            Some(t) => now_ms < t || now_ms - t < 5000,
            None => false,
        };
        if current_count <= s.last_notified || cooling {
            self.0.insert(String::from_str(messenger), s);
            return None;
        }
        self.0.insert(
            String::from_str(messenger),
            NotifyState { last_notified: current_count, last_shown_ms: Some(now_ms), ..s },
        );
        let mut title: Vec<char> = Vec::new();
        push_str(&mut title, "New message on ");
        match find_messenger(messenger) {
            Some(m) => {
                proof {
                    crate::messengers::lemma_labels_distinct();
                }
                push_str(&mut title, m.display_name());
            },
            None => push_str(&mut title, messenger),
        }
        let body = if current_count == 1 {
            String::from_str("You have 1 unread message")
        } else {
            let mut b: Vec<char> = Vec::new();
            push_str(&mut b, "You have ");
            push_dec(&mut b, current_count as u64);
            push_str(&mut b, " unread messages");
            string_of(&b)
        };
        Some(Notification { title: string_of(&title), body })
    }
}


// ---------------------------------------------------------------------------
// The debounce task
// ---------------------------------------------------------------------------

/// Where the debounce task of a messenger stands. It is told every generation
/// it reads and answers with what to do next.
#[derive(Clone, Copy, PartialEq, Eq, Structural, Debug)]
pub enum DebouncePhase {
    /// About to read the generation and sleep one window.
    Start,
    /// Slept one window after reading `gen_at_sleep`.
    Slept { gen_at_sleep: u64 },
    /// Tried to notify after the generation held at `gen_before_fire`.
    Fired { gen_before_fire: u64 },
    /// Released its slot and stopped.
    Done,
}

/// What the debounce task does next.
#[derive(Clone, Copy, PartialEq, Eq, Structural, Debug)]
pub enum DebounceAction {
    /// Sleep one debounce window, then read the generation again.
    Sleep,
    /// Read the generation again at once (a change arrived; start over).
    ReadAgain,
    /// The count settled: try to notify, then read the generation again.
    Notify,
    /// Nothing arrived while notifying: release the slot and stop.
    Release,
}

/// The debounce task notifies only once the generation held still for a whole
/// window, and gives up its slot only if nothing changed while it notified;
/// any change sends it back to the start, still holding the slot, so a change
/// that lands while it notifies is never lost.
pub open spec fn debounce_spec(phase: DebouncePhase, generation: u64) -> (DebouncePhase, DebounceAction) {
    match phase {
        DebouncePhase::Start => (DebouncePhase::Slept { gen_at_sleep: generation }, DebounceAction::Sleep),
        DebouncePhase::Slept { gen_at_sleep } => if generation == gen_at_sleep {
            (DebouncePhase::Fired { gen_before_fire: generation }, DebounceAction::Notify)
        } else {
            (DebouncePhase::Start, DebounceAction::ReadAgain)
        },
        DebouncePhase::Fired { gen_before_fire } => if generation == gen_before_fire {
            (DebouncePhase::Done, DebounceAction::Release)
        } else {
            (DebouncePhase::Start, DebounceAction::ReadAgain)
        },
        DebouncePhase::Done => (DebouncePhase::Done, DebounceAction::Release),
    }
}

/// One step of the debounce task, given the generation it just read.
pub fn debounce_step(phase: DebouncePhase, generation: u64) -> (r: (DebouncePhase, DebounceAction))
    ensures
        r == debounce_spec(phase, generation),
{
    match phase {
        DebouncePhase::Start => (DebouncePhase::Slept { gen_at_sleep: generation }, DebounceAction::Sleep),
        DebouncePhase::Slept { gen_at_sleep } => if generation == gen_at_sleep {
            (DebouncePhase::Fired { gen_before_fire: generation }, DebounceAction::Notify)
        } else {
            (DebouncePhase::Start, DebounceAction::ReadAgain)
        },
        DebouncePhase::Fired { gen_before_fire } => if generation == gen_before_fire {
            (DebouncePhase::Done, DebounceAction::Release)
        } else {
            (DebouncePhase::Start, DebounceAction::ReadAgain)
        },
        DebouncePhase::Done => (DebouncePhase::Done, DebounceAction::Release),
    }
}

// ---------------------------------------------------------------------------
// Laws of the notification logic
// ---------------------------------------------------------------------------

/// Shortest time between two notifications of one messenger, in milliseconds.
pub open spec fn notify_cooldown_ms() -> int {
    5000
}

/// A notification of the messenger was shown less than the cooldown before `now_ms`.
pub open spec fn in_cooldown(s: NotifyState, now_ms: u64) -> bool {
    s.last_shown_ms matches Some(t) && now_ms < t + notify_cooldown_ms()
}

/// What `claim_notification` leaves as the state of the messenger, and whether
/// it announces, at `now_ms` when nothing else blocks it (count above zero, no
/// silence, window not focused): a count above the last one shown is announced
/// unless the last notification is less than the cooldown old; a held-back
/// count stays unannounced, so the next change of the count tries again.
pub open spec fn claim_step(s: NotifyState, current: u32, now_ms: u64) -> (NotifyState, bool) {
    if current <= s.last_notified || in_cooldown(s, now_ms) {
        (s, false)
    } else {
        (NotifyState { last_notified: current, last_shown_ms: Some(now_ms), ..s }, true)
    }
}

/// A count is announced at most once: right after a notification for a count,
/// claiming the same count again announces nothing.
pub proof fn lemma_no_repeat_notification(s: NotifyState, current: u32, now_ms: u64, later_ms: u64)
    ensures
        claim_step(s, current, now_ms).1 ==> !claim_step(claim_step(s, current, now_ms).0, current, later_ms).1,
{
}

/// Only a rise above the last announced count is announced, and only once the
/// cooldown since the last notification has passed.
pub proof fn lemma_announce_only_rises(s: NotifyState, current: u32, now_ms: u64)
    ensures
        claim_step(s, current, now_ms).1 <==> current > s.last_notified && !in_cooldown(s, now_ms),
        claim_step(s, current, now_ms).0.last_notified >= s.last_notified,
{
}

/// A drop re-arms notifications: after the count falls to `count`, the
/// baseline is `count`, so any later rise above it is announced again once the
/// cooldown has passed.
pub proof fn lemma_drop_rearms(s: NotifyState, count: u32, previous: u32, later: u32, now_ms: u64)
    requires
        count < previous || count == 0,
        later > count,
        !in_cooldown(s, now_ms),
    ensures
        notify_step(s, count, previous).0.last_notified == count,
        claim_step(notify_step(s, count, previous).0, later, now_ms).1,
{
}

/// At most one debounce task runs per messenger: a change starts one only when
/// none is running, and leaves one marked as running after it starts; until it
/// is released, no further change starts another.
pub proof fn lemma_single_debounce_task(s: NotifyState, count: u32, previous: u32, count2: u32, previous2: u32)
    ensures
        notify_step(s, count, previous).1 ==> !s.in_flight && notify_step(s, count, previous).0.in_flight,
        notify_step(s, count, previous).0.in_flight ==> !notify_step(notify_step(s, count, previous).0, count2, previous2).1,
{
}

/// Every change the debounce task must react to moves the generation on: a
/// drop and a rise both bump it, so a task that saw the old generation sleeps
/// again instead of firing.
pub proof fn lemma_change_moves_generation(s: NotifyState, count: u32, previous: u32)
    ensures
        (count == 0 || count < previous || count > s.last_notified) ==> notify_step(s, count, previous).0.pending_gen
            == next_gen(s.pending_gen),
        !(count == 0 || count < previous || count > s.last_notified) ==> notify_step(s, count, previous).0 == s,
{
}

/// Changes of the count and the end of a debounce task keep the time of the
/// last notification.
pub proof fn lemma_steps_keep_last_shown(s: NotifyState, count: u32, previous: u32)
    ensures
        notify_step(s, count, previous).0.last_shown_ms == s.last_shown_ms,
        (NotifyState { in_flight: false, ..s }).last_shown_ms == s.last_shown_ms,
{
}

/// One thing that can happen to the notification state of a messenger.
#[derive(Clone, Copy, PartialEq, Eq, Structural, Debug)]
pub enum NotifyEvent {
    /// Its unread count changed from `previous` to `count` (`on_count_change`).
    Change { count: u32, previous: u32 },
    /// Its debounce task ended (`release`).
    Release,
    /// A settled count was claimed at `now_ms` (`claim_notification`).
    Claim { count: u32, silenced: bool, focused: bool, now_ms: u64 },
}

/// The state an event leaves, and whether it shows a notification.
pub open spec fn apply_event(s: NotifyState, e: NotifyEvent) -> (NotifyState, bool) {
    match e {
        NotifyEvent::Change { count, previous } => (notify_step(s, count, previous).0, false),
        NotifyEvent::Release => (NotifyState { in_flight: false, ..s }, false),
        NotifyEvent::Claim { count, silenced, focused, now_ms } => if count == 0 || silenced || focused {
            (s, false)
        } else {
            claim_step(s, count, now_ms)
        },
    }
}

/// The state after a run of events, in order.
pub open spec fn replay(s: NotifyState, events: Seq<NotifyEvent>) -> NotifyState
    decreases events.len(),
{
    if events.len() == 0 {
        s
    } else {
        replay(apply_event(s, events[0]).0, events.drop_first())
    }
}

/// Some event of the run shows a notification.
pub open spec fn announces(s: NotifyState, events: Seq<NotifyEvent>) -> bool
    decreases events.len(),
{
    if events.len() == 0 {
        false
    } else {
        apply_event(s, events[0]).1 || announces(apply_event(s, events[0]).0, events.drop_first())
    }
}

/// Every claim of the run comes before `deadline`.
pub open spec fn claims_before(events: Seq<NotifyEvent>, deadline: int) -> bool {
    forall|i: int| 0 <= i < events.len() ==> (#[trigger] events[i] matches NotifyEvent::Claim { now_ms, .. } ==> now_ms < deadline)
}

/// No change of the count frees the debounce slot: after a change, a task is
/// marked running exactly when one was running before or the change started
/// one.
pub proof fn lemma_change_keeps_task(s: NotifyState, count: u32, previous: u32)
    ensures
        notify_step(s, count, previous).0.in_flight == (s.in_flight || notify_step(s, count, previous).1),
{
}

/// The event is a change of the count that starts a debounce task.
pub open spec fn starts_task(s: NotifyState, e: NotifyEvent) -> bool {
    match e {
        NotifyEvent::Change { count, previous } => notify_step(s, count, previous).1,
        _ => false,
    }
}

/// Only the end of the task frees the slot: while a debounce task runs, any
/// run of count changes and claims without a release leaves it marked
/// running, so no change in that run starts a second task.
pub proof fn lemma_only_release_frees_task(s: NotifyState, events: Seq<NotifyEvent>)
    requires
        s.in_flight,
        forall|i: int| 0 <= i < events.len() ==> #[trigger] events[i] != NotifyEvent::Release,
    ensures
        replay(s, events).in_flight,
        forall|i: int| 0 <= i < events.len() ==> !starts_task(replay(s, events.take(i)), #[trigger] events[i]),
    decreases events.len(),
{
    if events.len() > 0 {
        let rest = events.drop_first();
        let next = apply_event(s, events[0]).0;
        assert(events[0] != NotifyEvent::Release);
        assert(next.in_flight);
        assert forall|i: int| 0 <= i < rest.len() implies #[trigger] rest[i] != NotifyEvent::Release by {
            assert(rest[i] == events[i + 1]);
        }
        lemma_only_release_frees_task(next, rest);
        assert forall|i: int| 0 <= i < events.len() implies !starts_task(replay(s, events.take(i)), #[trigger] events[i]) by {
            if i == 0 {
                assert(events.take(0) =~= Seq::<NotifyEvent>::empty());
            } else {
                assert(rest[i - 1] == events[i]);
                assert(events.take(i).drop_first() =~= rest.take(i - 1));
                assert(events.take(i)[0] == events[0]);
                lemma_prefix_stays_running(next, rest.take(i - 1));
            }
        }
    }
}

/// A release-free prefix keeps the task marked running.
proof fn lemma_prefix_stays_running(s: NotifyState, events: Seq<NotifyEvent>)
    requires
        s.in_flight,
        forall|i: int| 0 <= i < events.len() ==> #[trigger] events[i] != NotifyEvent::Release,
    ensures
        replay(s, events).in_flight,
    decreases events.len(),
{
    if events.len() > 0 {
        let rest = events.drop_first();
        assert(events[0] != NotifyEvent::Release);
        assert forall|i: int| 0 <= i < rest.len() implies #[trigger] rest[i] != NotifyEvent::Release by {
            assert(rest[i] == events[i + 1]);
        }
        lemma_prefix_stays_running(apply_event(s, events[0]).0, rest);
    }
}

proof fn lemma_quiet_while_cooling(s: NotifyState, shown_ms: u64, events: Seq<NotifyEvent>)
    requires
        s.last_shown_ms == Some(shown_ms),
        claims_before(events, shown_ms + notify_cooldown_ms()),
    ensures
        !announces(s, events),
        replay(s, events).last_shown_ms == Some(shown_ms),
    decreases events.len(),
{
    if events.len() > 0 {
        let e = events[0];
        let rest = events.drop_first();
        assert(claims_before(rest, shown_ms + notify_cooldown_ms())) by {
            assert forall|i: int| 0 <= i < rest.len() implies (#[trigger] rest[i] matches NotifyEvent::Claim { now_ms, .. }
                ==> now_ms < shown_ms + notify_cooldown_ms()) by {
                assert(rest[i] == events[i + 1]);
            }
        }
        assert(events[0] matches NotifyEvent::Claim { now_ms, .. } ==> now_ms < shown_ms + notify_cooldown_ms());
        lemma_steps_keep_last_shown(s, 0, 0);
        match e {
            NotifyEvent::Change { count, previous } => {
                lemma_steps_keep_last_shown(s, count, previous);
            },
            _ => {},
        }
        lemma_quiet_while_cooling(apply_event(s, e).0, shown_ms, rest);
    }
}

/// At most one notification per messenger within the cooldown: after one is
/// shown at `shown_ms`, whatever run of count changes, ends of debounce tasks
/// and claims follows, as long as every claim comes before `shown_ms` plus five
/// seconds, none of them shows a notification, and the time of the last one
/// shown stays `shown_ms`.
pub proof fn lemma_notify_cooldown(s: NotifyState, current: u32, shown_ms: u64, events: Seq<NotifyEvent>)
    requires
        claim_step(s, current, shown_ms).1,
        claims_before(events, shown_ms + notify_cooldown_ms()),
    ensures
        claim_step(s, current, shown_ms).0.last_shown_ms == Some(shown_ms),
        !announces(claim_step(s, current, shown_ms).0, events),
        replay(claim_step(s, current, shown_ms).0, events).last_shown_ms == Some(shown_ms),
{
    lemma_quiet_while_cooling(claim_step(s, current, shown_ms).0, shown_ms, events);
}

/// A repeated report of the same count changes nothing the second time.
pub proof fn lemma_repeated_report_unchanged(m: Map<Seq<char>, u32>, label: Seq<char>, count: u32)
    ensures
        ({
            let capped = if count < max_unread() { count } else { max_unread() };
            count_in(m.insert(label, capped), label) == capped
        }),
{
}


/// The debounce task notifies only after a whole window without a change, and
/// releases its slot only when no change arrived since the window it notified on.
pub proof fn lemma_debounce_waits_for_quiet(phase: DebouncePhase, generation: u64)
    ensures
        debounce_spec(phase, generation).1 == DebounceAction::Notify ==> phase == (DebouncePhase::Slept { gen_at_sleep: generation }),
        debounce_spec(phase, generation).1 == DebounceAction::Release && phase != DebouncePhase::Done ==> phase == (
        DebouncePhase::Fired { gen_before_fire: generation }),
{
}
} // verus!
