//! Reminders: which are kept and timed, how the changes users make to them
//! move their timers, and what happens when one is due.

use vstd::prelude::*;
use crate::config::{Reminder, ReminderFrequency, ReminderSubscriber};

verus! {

/// What is kept of a reminder in the specifications.
pub struct ReminderView {
    pub id: u32,
    pub message: Seq<char>,
    pub time: i64,
    pub frequency: ReminderFrequency,
    pub subscribers: Seq<ReminderSubscriber>,
}

impl View for Reminder {
    type V = ReminderView;

    open spec fn view(&self) -> ReminderView {
        ReminderView {
            id: self.id,
            message: self.message@,
            time: self.time,
            frequency: self.frequency,
            subscribers: self.subscribers@,
        }
    }
}

/// A change to the reminders that a user made.
#[derive(Debug)]
pub enum EntryEvent {
    Added { key: u32, value: Reminder },
    Updated { key: u32, value: Reminder },
    Removed { key: u32 },
}

/// A change to the timers of the reminders, by reminder key.
#[derive(Debug, Clone, Copy, PartialEq, Eq, Structural)]
pub enum TimerAction {
    /// Start a timer that fires after `delay` milliseconds.
    Insert { key: u32, delay: u64 },
    /// Let the timer fire after `delay` milliseconds from now.
    Reset { key: u32, delay: u64 },
    /// Drop the timer.
    Remove { key: u32 },
}

/// A change to the stored reminders.
#[derive(Debug, Clone, Copy, PartialEq, Eq, Structural)]
pub enum StoreAction {
    /// Store all the reminders.
    SaveAll,
    /// Delete the reminder with this id.
    Delete(u32),
    /// Store the reminder with this id anew.
    Update(u32),
}

/// A kept reminder under its key.
pub struct Entry {
    pub key: u32,
    pub reminder: Reminder,
}

pub struct EntryView {
    pub key: u32,
    pub reminder: ReminderView,
}

impl View for Entry {
    type V = EntryView;

    open spec fn view(&self) -> EntryView {
        EntryView { key: self.key, reminder: self.reminder@ }
    }
}

pub open spec fn entry_views(v: Seq<Entry>) -> Seq<EntryView> {
    v.map_values(|e: Entry| e@)
}

pub open spec fn key_pos(s: Seq<EntryView>, key: u32) -> Option<int>
    decreases s.len(),
{
    if s.len() == 0 {
        None
    } else if s.last().key == key {
        Some(s.len() - 1)
    } else {
        key_pos(s.drop_last(), key)
    }
}

proof fn lemma_key_pos(s: Seq<EntryView>, key: u32)
    ensures
        match key_pos(s, key) {
            Some(p) => 0 <= p < s.len() && s[p].key == key,
            None => forall|j: int| 0 <= j < s.len() ==> s[j].key != key,
        },
    decreases s.len(),
{
    if s.len() > 0 && s.last().key != key {
        lemma_key_pos(s.drop_last(), key);
        if key_pos(s, key) is None {
            assert forall|j: int| 0 <= j < s.len() implies s[j].key != key by {
                if j < s.len() - 1 {
                    assert(s.drop_last()[j] == s[j]);
                }
            }
        }
    }
}

pub open spec fn distinct_keys(s: Seq<EntryView>) -> bool {
    forall|i: int, j: int| 0 <= i < s.len() && 0 <= j < s.len() && i != j ==> s[i].key != s[j].key
}

/// The entries after `r` is kept under `key`: in place of the entry with
/// that key, else at the end.
pub open spec fn with_entry(s: Seq<EntryView>, key: u32, r: ReminderView) -> Seq<EntryView> {
    let e = EntryView { key, reminder: r };
    match key_pos(s, key) {
        Some(p) => s.update(p, e),
        None => s.push(e),
    }
}

/// Milliseconds from `now` until `t`, if `t` is not past.
pub open spec fn delay_until(t: i64, now: i64) -> Option<u64> {
    if t >= now {
        Some((t - now) as u64)
    } else {
        None
    }
}

fn duration_until(t: i64, now: i64) -> (r: Option<u64>)
    ensures
        r == delay_until(t, now),
{
    if t >= now {
        let d: i128 = t as i128 - now as i128;
        Some(d as u64)
    } else {
        None
    }
}

/// The period of a repeating reminder in milliseconds: a day, a week, thirty
/// days or 365 days.
pub open spec fn period(f: ReminderFrequency) -> Option<i64> {
    match f {
        ReminderFrequency::Once => None,
        ReminderFrequency::Daily => Some(86_400_000),
        ReminderFrequency::Weekly => Some(604_800_000),
        ReminderFrequency::Monthly => Some(2_592_000_000),
        ReminderFrequency::Yearly => Some(31_536_000_000),
    }
}

/// The reminders kept at start-up from the stored ones at time `now`, and
/// their timers: a reminder whose time is past is left out.
pub open spec fn loaded(saved: Seq<ReminderView>, now: i64) -> (Seq<EntryView>, Seq<TimerAction>)
    decreases saved.len(),
{
    if saved.len() == 0 {
        (Seq::empty(), Seq::empty())
    } else {
        let prev = loaded(saved.drop_last(), now);
        let r = saved.last();
        match delay_until(r.time, now) {
            None => prev,
            Some(d) => (
                with_entry(prev.0, r.id, r),
                prev.1.push(TimerAction::Insert { key: r.id, delay: d }),
            ),
        }
    }
}

pub enum EntryEventView {
    Added { key: u32, value: ReminderView },
    Updated { key: u32, value: ReminderView },
    Removed { key: u32 },
}

impl View for EntryEvent {
    type V = EntryEventView;

    open spec fn view(&self) -> EntryEventView {
        match self {
            EntryEvent::Added { key, value } => EntryEventView::Added { key: *key, value: value@ },
            EntryEvent::Updated { key, value } => EntryEventView::Updated {
                key: *key,
                value: value@,
            },
            EntryEvent::Removed { key } => EntryEventView::Removed { key: *key },
        }
    }
}

/// What a user's change does at time `now`: the kept reminders, the timer
/// change, and whether all reminders are stored again. An added reminder, or
/// an updated one whose time moved, whose time is past changes nothing.
pub open spec fn after_event(s: Seq<EntryView>, e: EntryEventView, now: i64) -> (
    Seq<EntryView>,
    Option<TimerAction>,
    bool,
) {
    match e {
        EntryEventView::Added { key, value } => match delay_until(value.time, now) {
            None => (s, None, false),
            Some(d) => (with_entry(s, key, value), Some(TimerAction::Insert { key, delay: d }), true),
        },
        EntryEventView::Updated { key, value } => match key_pos(s, key) {
            None => (s, None, true),
            Some(p) => if s[p].reminder.time != value.time {
                match delay_until(value.time, now) {
                    None => (s, None, false),
                    Some(d) => (
                        s.update(p, EntryView { key, reminder: value }),
                        Some(TimerAction::Reset { key, delay: d }),
                        true,
                    ),
                }
            } else {
                (s.update(p, EntryView { key, reminder: value }), None, true)
            },
        },
        EntryEventView::Removed { key } => match key_pos(s, key) {
            None => (s, None, true),
            Some(p) => (s.remove(p), Some(TimerAction::Remove { key }), true),
        },
    }
}

/// What the timer of reminder `key` firing does: the reminder is sent; one
/// that happens once is dropped and deleted from storage; a repeating one
/// moves on by its period, gets a timer for that period, and is stored anew.
pub open spec fn after_fire(s: Seq<EntryView>, key: u32) -> (
    Seq<EntryView>,
    Option<ReminderView>,
    Option<TimerAction>,
    Option<StoreAction>,
) {
    match key_pos(s, key) {
        None => (s, None, None, None),
        Some(p) => {
            let r = s[p].reminder;
            match period(r.frequency) {
                None => (s.remove(p), Some(r), None, Some(StoreAction::Delete(key))),
                Some(d) => (
                    s.update(
                        p,
                        EntryView {
                            key,
                            reminder: ReminderView {
                                id: r.id,
                                message: r.message,
                                time: (r.time + d) as i64,
                                frequency: r.frequency,
                                subscribers: r.subscribers,
                            },
                        },
                    ),
                    Some(r),
                    Some(TimerAction::Insert { key, delay: d as u64 }),
                    Some(StoreAction::Update(key)),
                ),
            }
        },
    }
}

/// The task that keeps the reminders and sends each when it is due; what it
/// decides is what `Reminders` does with each event and timer.
pub struct ReminderNotifier;

/// The kept reminders, each key once.
pub struct Reminders {
    entries: Vec<Entry>,
}

impl View for Reminders {
    type V = Seq<EntryView>;

    closed spec fn view(&self) -> Seq<EntryView> {
        entry_views(self.entries@)
    }
}

pub open spec fn opt_reminder_view(o: Option<Reminder>) -> Option<ReminderView> {
    match o {
        Some(r) => Some(r@),
        None => None,
    }
}

pub open spec fn reminder_views(v: Seq<Reminder>) -> Seq<ReminderView> {
    v.map_values(|r: Reminder| r@)
}

impl Reminders {
    pub closed spec fn wf(&self) -> bool {
        distinct_keys(self@)
    }

    /// In a well-formed set no two reminders share a key, which the laws on
    /// firing, adding and removing reminders ask of their set.
    pub proof fn lemma_wf_distinct(&self)
        requires
            self.wf(),
        ensures
            distinct_keys(self@),
    {
    }

    /// No reminders.
    pub fn new() -> (r: Reminders)
        ensures
            r.wf(),
            r@ == Seq::<EntryView>::empty(),
    {
        let r = Reminders { entries: Vec::new() };
        assert(r@ =~= Seq::<EntryView>::empty());
        r
    }

    fn position(&self, key: u32) -> (r: Option<usize>)
        ensures
            match r {
                Some(i) => key_pos(self@, key) == Some(i as int),
                None => key_pos(self@, key) is None,
            },
    {
        let ghost s = self@;
        let mut i: usize = self.entries.len();
        assert(s.take(i as int) =~= s);
        while i > 0
            invariant
                i <= self.entries.len(),
                s == entry_views(self.entries@),
                key_pos(s, key) == key_pos(s.take(i as int), key),
            decreases i,
        {
            assert(s.take(i as int).drop_last() =~= s.take(i - 1));
            assert(s.take(i as int).last() == self.entries@[i - 1]@);
            if self.entries[i - 1].key == key {
                return Some(i - 1);
            }
            i -= 1;
        }
        None
    }

    fn replace_at(&mut self, p: usize, e: Entry)
        requires
            old(self).wf(),
            p < old(self)@.len(),
            e.key == old(self)@[p as int].key,
        ensures
            final(self).wf(),
            final(self)@ == old(self)@.update(p as int, e@),
    {
        let ghost s = self@;
        let ghost ev = e@;
        let _ = self.entries.remove(p);
        self.entries.insert(p, e);
        assert(self@ =~= s.update(p as int, ev));
        assert forall|a: int, b: int|
            0 <= a < self@.len() && 0 <= b < self@.len() && a != b implies self@[a].key
            != self@[b].key by {
            assert(a != p ==> self@[a] == s[a]);
            assert(b != p ==> self@[b] == s[b]);
        }
    }

    fn remove_at(&mut self, p: usize) -> (r: Entry)
        requires
            old(self).wf(),
            p < old(self)@.len(),
        ensures
            final(self).wf(),
            final(self)@ == old(self)@.remove(p as int),
            r@ == old(self)@[p as int],
    {
        let ghost s = self@;
        let r = self.entries.remove(p);
        assert(self@ =~= s.remove(p as int));
        assert forall|a: int, b: int|
            0 <= a < self@.len() && 0 <= b < self@.len() && a != b implies self@[a].key
            != self@[b].key by {
            let x = if a < p { a } else { a + 1 };
            let y = if b < p { b } else { b + 1 };
            assert(self@[a] == s[x] && self@[b] == s[y]);
        }
        r
    }

    /// Keeps `value` under `key`, in place of the reminder with that key.
    fn put(&mut self, key: u32, value: Reminder)
        requires
            old(self).wf(),
        ensures
            final(self).wf(),
            final(self)@ == with_entry(old(self)@, key, value@),
    {
        let ghost s = self@;
        proof {
            lemma_key_pos(s, key);
        }
        match self.position(key) {
            Some(p) => {
                self.replace_at(p, Entry { key, reminder: value });
            },
            None => {
                let ghost e = EntryView { key, reminder: value@ };
                self.entries.push(Entry { key, reminder: value });
                assert(self@ =~= s.push(e));
                assert forall|a: int, b: int|
                    0 <= a < self@.len() && 0 <= b < self@.len() && a != b implies self@[a].key
                    != self@[b].key by {
                    assert(a < s.len() ==> self@[a] == s[a]);
                    assert(b < s.len() ==> self@[b] == s[b]);
                }
            },
        }
    }

    /// The reminder kept under `key`, if any.
    pub fn get(&self, key: u32) -> (r: Option<Reminder>)
        ensures
            match key_pos(self@, key) {
                Some(p) => r matches Some(x) && x@ == self@[p].reminder,
                None => r is None,
            },
    {
        match self.position(key) {
            Some(p) => {
                proof {
                    lemma_key_pos(self@, key);
                }
                assert(self@[p as int] == self.entries@[p as int]@);
                Some(self.entries[p].reminder.copy())
            },
            None => None,
        }
    }

    /// Every kept reminder, in order, as the whole set is stored.
    pub fn all(&self) -> (r: Vec<Reminder>)
        ensures
            reminder_views(r@) == self@.map_values(|e: EntryView| e.reminder),
    {
        let ghost want = self@.map_values(|e: EntryView| e.reminder);
        let mut r: Vec<Reminder> = Vec::new();
        let mut i: usize = 0;
        while i < self.entries.len()
            invariant
                i <= self.entries.len(),
                want == self@.map_values(|e: EntryView| e.reminder),
                self@ == entry_views(self.entries@),
                reminder_views(r@) == want.take(i as int),
            decreases self.entries.len() - i,
        {
            let ghost prev = reminder_views(r@);
            let x = self.entries[i].reminder.copy();
            r.push(x);
            assert(reminder_views(r@) =~= prev.push(x@));
            assert(want[i as int] == self.entries@[i as int]@.reminder);
            assert(want.take(i + 1) =~= want.take(i as int).push(want[i as int]));
            i += 1;
        }
        assert(want.take(i as int) =~= want);
        r
    }

    /// The reminders kept at start-up from the stored ones, and their timers.
    pub fn load(saved: Vec<Reminder>, now: i64) -> (r: (Reminders, Vec<TimerAction>))
        ensures
            r.0.wf(),
            (r.0@, r.1@) == loaded(reminder_views(saved@), now),
    {
        let ghost all = reminder_views(saved@);
        let mut rs = Reminders::new();
        let mut actions: Vec<TimerAction> = Vec::new();
        let mut rest = saved;
        let n: usize = rest.len();
        assert(all.len() == n);
        let mut k: usize = 0;
        assert(all.take(0) =~= Seq::<ReminderView>::empty());
        assert(actions@ =~= Seq::<TimerAction>::empty());
        while rest.len() > 0
            invariant
                k + rest.len() == all.len(),
                all.len() <= usize::MAX,
                reminder_views(rest@) == all.skip(k as int),
                rs.wf(),
                (rs@, actions@) == loaded(all.take(k as int), now),
            decreases rest.len(),
        {
            let ghost rv = rest@;
            let r = rest.remove(0);
            assert(r@ == reminder_views(rv)[0]);
            assert(reminder_views(rest@) =~= reminder_views(rv).skip(1));
            assert(all.take(k + 1).drop_last() =~= all.take(k as int));
            assert(all.take(k + 1).last() == r@);
            match duration_until(r.time, now) {
                Some(d) => {
                    let id = r.id;
                    rs.put(id, r);
                    actions.push(TimerAction::Insert { key: id, delay: d });
                },
                None => {},
            }
            k += 1;
        }
        assert(all.take(k as int) =~= all);
        (rs, actions)
    }

    /// Applies a user's change at time `now`: returns the timer change and
    /// whether all reminders are to be stored again.
    pub fn on_event(&mut self, event: EntryEvent, now: i64) -> (r: (Option<TimerAction>, bool))
        requires
            old(self).wf(),
        ensures
            final(self).wf(),
            after_event(old(self)@, event@, now) == (final(self)@, r.0, r.1),
    {
        let ghost s = self@;
        match event {
            EntryEvent::Added { key, value } => match duration_until(value.time, now) {
                None => (None, false),
                Some(d) => {
                    self.put(key, value);
                    (Some(TimerAction::Insert { key, delay: d }), true)
                },
            },
            EntryEvent::Updated { key, value } => match self.position(key) {
                None => (None, true),
                Some(p) => {
                    proof {
                        lemma_key_pos(s, key);
                    }
                    if self.entries[p].reminder.time != value.time {
                        match duration_until(value.time, now) {
                            None => (None, false),
                            Some(d) => {
                                self.replace_at(p, Entry { key, reminder: value });
                                (Some(TimerAction::Reset { key, delay: d }), true)
                            },
                        }
                    } else {
                        self.replace_at(p, Entry { key, reminder: value });
                        (None, true)
                    }
                },
            },
            EntryEvent::Removed { key } => match self.position(key) {
                None => (None, true),
                Some(p) => {
                    proof {
                        lemma_key_pos(s, key);
                    }
                    let _ = self.remove_at(p);
                    (Some(TimerAction::Remove { key }), true)
                },
            },
        }
    }

    /// The timer of reminder `key` fired: returns the reminder to send, the
    /// timer change and the storage change.
    pub fn on_fire(&mut self, key: u32) -> (r: (Option<Reminder>, Option<TimerAction>, Option<StoreAction>))
        requires
            old(self).wf(),
            key_pos(old(self)@, key) matches Some(p) ==> (period(
                old(self)@[p].reminder.frequency,
            ) matches Some(d) ==> old(self)@[p].reminder.time + d <= i64::MAX),
        ensures
            final(self).wf(),
            after_fire(old(self)@, key) == (final(self)@, opt_reminder_view(r.0), r.1, r.2),
    {
        let ghost s = self@;
        let p = match self.position(key) {
            None => {
                return (None, None, None);
            },
            Some(p) => p,
        };
        proof {
            lemma_key_pos(s, key);
        }
        let sent = self.entries[p].reminder.copy();
        let offset: i64 = match self.entries[p].reminder.frequency {
            ReminderFrequency::Once => {
                let _ = self.remove_at(p);
                return (Some(sent), None, Some(StoreAction::Delete(key)));
            },
            ReminderFrequency::Daily => 86_400_000,
            ReminderFrequency::Weekly => 604_800_000,
            ReminderFrequency::Monthly => 2_592_000_000,
            ReminderFrequency::Yearly => 31_536_000_000,
        };
        let mut moved = self.entries[p].reminder.copy();
        moved.time = moved.time + offset;
        self.replace_at(p, Entry { key, reminder: moved });
        (Some(sent), Some(TimerAction::Insert { key, delay: offset as u64 }), Some(StoreAction::Update(key)))
    }
}

/// A repeating reminder is not lost when it fires: it is kept, a period
/// later, and its timer is started again.
pub proof fn lemma_repeating_reminder_moves_on(s: Seq<EntryView>, key: u32)
    requires
        distinct_keys(s),
        key_pos(s, key) matches Some(p) && period(s[p].reminder.frequency) is Some,
    ensures
        ({
            let p = key_pos(s, key).unwrap();
            let d = period(s[p].reminder.frequency).unwrap();
            let f = after_fire(s, key);
            key_pos(f.0, key) == Some(p) && f.0[p].reminder.time == (s[p].reminder.time + d) as i64
                && f.2 == Some(TimerAction::Insert { key, delay: d as u64 })
        }),
{
    let p = key_pos(s, key).unwrap();
    lemma_key_pos(s, key);
    let f = after_fire(s, key);
    lemma_key_pos(f.0, key);
    if key_pos(f.0, key) != Some(p) {
        let q = key_pos(f.0, key);
        if q is Some {
            let qq = q.unwrap();
            assert(f.0[qq].key == key);
            assert(qq != p ==> f.0[qq] == s[qq]);
        } else {
            assert(f.0[p].key == key);
        }
    }
}

/// A reminder that fires is sent, and a repeating one moves on by its
/// frequency: a day (86,400,000 ms) for a daily one, a week (604,800,000 ms)
/// for a weekly one, 30 days (2,592,000,000 ms) for a monthly one, 365 days
/// (31,536,000,000 ms) for a yearly one; it keeps its place, gets a timer for
/// that long and is stored anew. A reminder that happens once is dropped and
/// deleted from storage, with no new timer.
pub proof fn lemma_fired_reminder_moves_on_by_frequency(s: Seq<EntryView>, key: u32, ms: int)
    requires
        distinct_keys(s),
        key_pos(s, key) matches Some(p) && ms == match s[p].reminder.frequency {
            ReminderFrequency::Once => 0int,
            ReminderFrequency::Daily => 86_400_000int,
            ReminderFrequency::Weekly => 604_800_000int,
            ReminderFrequency::Monthly => 2_592_000_000int,
            ReminderFrequency::Yearly => 31_536_000_000int,
        } && s[p].reminder.time + ms <= i64::MAX,
    ensures
        ({
            let p = key_pos(s, key).unwrap();
            let r = s[p].reminder;
            let f = after_fire(s, key);
            &&& f.1 == Some(r)
            &&& r.frequency == ReminderFrequency::Once ==> {
                &&& key_pos(f.0, key) is None
                &&& f.2 is None
                &&& f.3 == Some(StoreAction::Delete(key))
            }
            &&& r.frequency != ReminderFrequency::Once ==> {
                &&& key_pos(f.0, key) == Some(p)
                &&& f.0[p].reminder.time == r.time + ms
                &&& f.0[p].reminder.frequency == r.frequency
                &&& f.2 == Some(TimerAction::Insert { key, delay: ms as u64 })
                &&& f.3 == Some(StoreAction::Update(key))
            }
        }),
{
    let p = key_pos(s, key).unwrap();
    lemma_key_pos(s, key);
    if s[p].reminder.frequency == ReminderFrequency::Once {
        let t = s.remove(p);
        lemma_key_pos(t, key);
        if key_pos(t, key) is Some {
            let q = key_pos(t, key).unwrap();
            let x = if q < p { q } else { q + 1 };
            assert(t[q] == s[x]);
        }
    } else {
        lemma_repeating_reminder_moves_on(s, key);
    }
}

/// A reminder that happens once is sent once: after it fires, firing its
/// timer again sends nothing.
pub proof fn lemma_once_reminder_sent_once(s: Seq<EntryView>, key: u32)
    requires
        distinct_keys(s),
        key_pos(s, key) matches Some(p) && s[p].reminder.frequency == ReminderFrequency::Once,
    ensures
        after_fire(after_fire(s, key).0, key).1 is None,
{
    let p = key_pos(s, key).unwrap();
    lemma_key_pos(s, key);
    let t = s.remove(p);
    lemma_key_pos(t, key);
    if key_pos(t, key) is Some {
        let q = key_pos(t, key).unwrap();
        let x = if q < p { q } else { q + 1 };
        assert(t[q] == s[x]);
    }
}

/// A removed reminder is never sent: once it is removed, its timer firing
/// sends nothing and changes nothing.
pub proof fn lemma_removed_reminder_never_fires(s: Seq<EntryView>, key: u32, now: i64)
    requires
        distinct_keys(s),
    ensures
        ({
            let t = after_event(s, EntryEventView::Removed { key }, now).0;
            after_fire(t, key) == (t, None::<ReminderView>, None::<TimerAction>, None::<StoreAction>)
        }),
{
    lemma_key_pos(s, key);
    let t = after_event(s, EntryEventView::Removed { key }, now).0;
    lemma_key_pos(t, key);
    if key_pos(s, key) is Some {
        let p = key_pos(s, key).unwrap();
        if key_pos(t, key) is Some {
            let q = key_pos(t, key).unwrap();
            let x = if q < p { q } else { q + 1 };
            assert(t[q] == s[x]);
        }
    }
}

/// An added reminder whose time has passed is dropped: the set does not
/// change, no timer starts, and the event is not stored.
pub proof fn lemma_past_reminder_dropped(s: Seq<EntryView>, key: u32, value: ReminderView, now: i64)
    requires
        value.time < now,
    ensures
        after_event(s, (EntryEventView::Added { key, value }), now) == (
            s,
            None::<TimerAction>,
            false,
        ),
{
}

/// At start-up only reminders whose time is still to come get a timer: each
/// timer is for a saved reminder, started with the time left until it.
pub proof fn lemma_loaded_timers_are_ahead(saved: Seq<ReminderView>, now: i64)
    ensures
        forall|i: int|
            0 <= i < loaded(saved, now).1.len() ==> exists|j: int|
                0 <= j < saved.len() && saved[j].time >= now && #[trigger] loaded(saved, now).1[i]
                    == (TimerAction::Insert { key: saved[j].id, delay: (saved[j].time - now) as u64 }),
    decreases saved.len(),
{
    if saved.len() > 0 {
        let prev = saved.drop_last();
        lemma_loaded_timers_are_ahead(prev, now);
        let acts = loaded(saved, now).1;
        assert forall|i: int| 0 <= i < acts.len() implies exists|j: int|
            0 <= j < saved.len() && saved[j].time >= now && #[trigger] acts[i]
                == TimerAction::Insert { key: saved[j].id, delay: (saved[j].time - now) as u64 } by {
            if i < loaded(prev, now).1.len() {
                assert(acts[i] == loaded(prev, now).1[i]);
                let j = choose|j: int|
                    0 <= j < prev.len() && prev[j].time >= now && #[trigger] loaded(prev, now).1[i]
                        == TimerAction::Insert { key: prev[j].id, delay: (prev[j].time - now) as u64 };
                assert(saved[j] == prev[j]);
            } else {
                let j = saved.len() - 1;
                assert(saved[j] == saved.last());
            }
        }
    }
}

/// An updated reminder that is held stays held and is what its timer sends.
/// When its time changed and is still to come, its timer is reset to fire at
/// the new time; when its time did not change, its timer is left as it is.
pub proof fn lemma_updated_reminder_fires(s: Seq<EntryView>, key: u32, value: ReminderView, now: i64)
    requires
        distinct_keys(s),
        key_pos(s, key) is Some,
        value.time >= now,
    ensures
        ({
            let p = key_pos(s, key).unwrap();
            let (t, timer, stored) = after_event(s, (EntryEventView::Updated { key, value }), now);
            &&& stored
            &&& after_fire(t, key).1 == Some(value)
            &&& if s[p].reminder.time != value.time {
                &&& timer == Some(TimerAction::Reset { key, delay: (value.time - now) as u64 })
                &&& now + (value.time - now) as u64 == value.time
            } else {
                timer is None
            }
        }),
{
    lemma_key_pos(s, key);
    let p = key_pos(s, key).unwrap();
    let e = EntryView { key, reminder: value };
    let t = s.update(p, e);
    assert(t.len() == s.len());
    assert(t[p] == e);
    lemma_key_pos(t, key);
    let q = key_pos(t, key).unwrap();
    if q != p {
        assert(t[q] == s[q]);
        assert(s[q].key == s[p].key);
    }
    assert(q == p);
}

/// An added reminder that is not past is kept and gets a timer for its
/// time: firing that timer sends it.
pub proof fn lemma_added_reminder_fires(s: Seq<EntryView>, key: u32, value: ReminderView, now: i64)
    requires
        distinct_keys(s),
        value.time >= now,
    ensures
        ({
            let (t, timer, _) = after_event(s, EntryEventView::Added { key, value }, now);
            &&& timer == Some(TimerAction::Insert { key, delay: (value.time - now) as u64 })
            &&& now + (value.time - now) as u64 == value.time
            &&& after_fire(t, key).1 == Some(value)
        }),
{
    lemma_key_pos(s, key);
    let e = EntryView { key, reminder: value };
    let t = with_entry(s, key, value);
    lemma_key_pos(t, key);
    match key_pos(s, key) {
        Some(p) => {
            assert(t == s.update(p, e));
            assert(t.len() == s.len());
            assert(t[p] == e);
            let q = key_pos(t, key).unwrap();
            if q != p {
                assert(t[q] == s[q]);
                assert(s[q].key == s[p].key);
            }
            assert(q == p);
        },
        None => {
            assert(t == s.push(e));
            assert(t[s.len() as int] == e);
            let q = key_pos(t, key).unwrap();
            if q < s.len() {
                assert(t[q] == s[q]);
            }
            assert(q == s.len());
        },
    }
}

} // verus!
