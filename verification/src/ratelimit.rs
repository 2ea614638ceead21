//! Rate limits of slash commands: a command may be used `count` times in a
//! window of `interval_sec` seconds, by everyone together or by each user.

use vstd::prelude::*;
use crate::paging::{refusal, should_fail, CommandRequest};

verus! {

/// Whom a rate limit counts together.
#[derive(Debug, Clone, Copy, PartialEq, Eq, Structural)]
pub enum RateLimitGrouping {
    Everyone,
    User,
}

/// A command's rate limit.
#[derive(Debug, Clone, Copy, PartialEq, Eq, Structural)]
pub struct RateLimit {
    pub count: u32,
    pub interval_sec: u32,
    pub grouping: RateLimitGrouping,
}

/// The uses counted in a window that began at `start` (milliseconds).
#[derive(Debug, Clone, Copy, PartialEq, Eq, Structural)]
pub struct RateWindow {
    pub command: u64,
    pub user: Option<u64>,
    pub count: u32,
    pub start: i64,
}

/// Whose uses a window counts: a command, and a user unless everyone is
/// counted together.
pub open spec fn window_key(w: RateWindow) -> (u64, Option<u64>) {
    (w.command, w.user)
}

/// The windows as a map from their key to their count and start.
pub open spec fn windows_map(s: Seq<RateWindow>) -> Map<(u64, Option<u64>), (u32, i64)>
    decreases s.len(),
{
    if s.len() == 0 {
        Map::empty()
    } else {
        windows_map(s.drop_last()).insert(window_key(s.last()), (s.last().count, s.last().start))
    }
}

pub open spec fn distinct_keys(s: Seq<RateWindow>) -> bool {
    forall|i: int, j: int|
        0 <= i < s.len() && 0 <= j < s.len() && i != j ==> window_key(s[i]) != window_key(s[j])
}

/// The whole seconds in `ms` milliseconds, rounded towards zero.
pub open spec fn whole_seconds(ms: int) -> int {
    if ms >= 0 {
        ms / 1000
    } else {
        -((-ms) / 1000)
    }
}

/// The key under which a use of `command` by `user` is counted.
pub open spec fn use_key(limit: RateLimit, command: u64, user: u64) -> (u64, Option<u64>) {
    match limit.grouping {
        RateLimitGrouping::Everyone => (command, None),
        RateLimitGrouping::User => (command, Some(user)),
    }
}

/// A use at `now` against the window `w`: whether it is allowed, and the
/// window after it. A first use opens a window; a use more whole seconds
/// after the window's start than the interval opens a new one; otherwise
/// the use is counted while the count is below the limit, and refused
/// after.
pub open spec fn admission(w: Option<(u32, i64)>, limit: RateLimit, now: i64) -> (bool, (u32, i64)) {
    match w {
        None => (true, (1, now)),
        Some((count, start)) => if whole_seconds(now - start) > limit.interval_sec {
            (true, (1, now))
        } else if count < limit.count {
            (true, ((count + 1) as u32, start))
        } else {
            (false, (count, start))
        },
    }
}

/// The windows of all commands.
#[derive(Debug)]
pub struct RateLimiter {
    pub windows: Vec<RateWindow>,
}

proof fn lemma_windows_map_dom(s: Seq<RateWindow>)
    ensures
        forall|k: (u64, Option<u64>)|
            #![trigger windows_map(s).dom().contains(k)]
            windows_map(s).dom().contains(k) <==> exists|i: int|
                0 <= i < s.len() && window_key(s[i]) == k,
    decreases s.len(),
{
    if s.len() > 0 {
        lemma_windows_map_dom(s.drop_last());
        assert forall|k: (u64, Option<u64>)|
            #![trigger windows_map(s).dom().contains(k)]
            windows_map(s).dom().contains(k) <==> exists|i: int|
                0 <= i < s.len() && window_key(s[i]) == k by {
            if windows_map(s).dom().contains(k) && k != window_key(s.last()) {
                assert(windows_map(s.drop_last()).dom().contains(k));
                let i = choose|i: int|
                    0 <= i < s.drop_last().len() && window_key(s.drop_last()[i]) == k;
                assert(window_key(s[i]) == k);
            }
            if exists|i: int| 0 <= i < s.len() && window_key(s[i]) == k {
                let i = choose|i: int| 0 <= i < s.len() && window_key(s[i]) == k;
                if i < s.len() - 1 {
                    assert(window_key(s.drop_last()[i]) == k);
                    assert(windows_map(s.drop_last()).dom().contains(k));
                }
            }
        }
    }
}

proof fn lemma_windows_map_at(s: Seq<RateWindow>, i: int)
    requires
        distinct_keys(s),
        0 <= i < s.len(),
    ensures
        windows_map(s).dom().contains(window_key(s[i])),
        windows_map(s)[window_key(s[i])] == (s[i].count, s[i].start),
    decreases s.len(),
{
    if i < s.len() - 1 {
        assert(distinct_keys(s.drop_last()));
        assert(s.drop_last()[i] == s[i]);
        lemma_windows_map_at(s.drop_last(), i);
    }
}

proof fn lemma_windows_map_update(s: Seq<RateWindow>, i: int, w: RateWindow)
    requires
        distinct_keys(s),
        0 <= i < s.len(),
        window_key(w) == window_key(s[i]),
    ensures
        windows_map(s.update(i, w)) == windows_map(s).insert(window_key(w), (w.count, w.start)),
    decreases s.len(),
{
    let t = s.update(i, w);
    if i == s.len() - 1 {
        assert(t.drop_last() =~= s.drop_last());
        assert(windows_map(t) =~= windows_map(s).insert(window_key(w), (w.count, w.start)));
    } else {
        assert(t.drop_last() =~= s.drop_last().update(i, w));
        assert(distinct_keys(s.drop_last()));
        lemma_windows_map_update(s.drop_last(), i, w);
        assert(window_key(s.last()) != window_key(w));
        assert(windows_map(t) =~= windows_map(s).insert(window_key(w), (w.count, w.start)));
    }
}

impl RateLimiter {
    pub closed spec fn wf(&self) -> bool {
        distinct_keys(self.windows@)
    }

    /// Each counted key with its count and the start of its window.
    pub closed spec fn windows(&self) -> Map<(u64, Option<u64>), (u32, i64)> {
        windows_map(self.windows@)
    }

    /// No use counted yet.
    pub fn new() -> (r: RateLimiter)
        ensures
            r.wf(),
            r.windows() == Map::<(u64, Option<u64>), (u32, i64)>::empty(),
    {
        RateLimiter { windows: Vec::new() }
    }

    /// The position of the window of `key`.
    fn find(&self, command: u64, user: Option<u64>) -> (r: Option<usize>)
        requires
            self.wf(),
        ensures
            match r {
                Some(i) => i < self.windows@.len() && window_key(self.windows@[i as int]) == (
                command,
                user,
                ),
                None => !self.windows().dom().contains((command, user)),
            },
    {
        let mut i: usize = 0;
        while i < self.windows.len()
            invariant
                i <= self.windows@.len(),
                forall|j: int| 0 <= j < i ==> window_key(self.windows@[j]) != (command, user),
            decreases self.windows@.len() - i,
        {
            let w = self.windows[i];
            if w.command == command && w.user == user {
                return Some(i);
            }
            i += 1;
        }
        proof {
            lemma_windows_map_dom(self.windows@);
        }
        None
    }

    /// A use of `command` by `user` at `now` (milliseconds), under `limit`:
    /// whether it is allowed. The use is counted in its window as `admission`
    /// says; no other window changes.
    pub fn check(&mut self, command: u64, user: u64, limit: RateLimit, now: i64) -> (r: bool)
        requires
            old(self).wf(),
        ensures
            final(self).wf(),
            ({
                let key = use_key(limit, command, user);
                let (allowed, w) = admission(old(self).windows().get(key), limit, now);
                &&& r == allowed
                &&& final(self).windows() == old(self).windows().insert(key, w)
            }),
    {
        let key_user = match limit.grouping {
            RateLimitGrouping::Everyone => None,
            RateLimitGrouping::User => Some(user),
        };
        let ghost key = (command, key_user);
        match self.find(command, key_user) {
            None => {
                let w = RateWindow { command, user: key_user, count: 1, start: now };
                let ghost prev = self.windows@;
                self.windows.push(w);
                proof {
                    assert(self.windows@.drop_last() =~= prev);
                    lemma_windows_map_dom(prev);
                    assert forall|i: int, j: int|
                        0 <= i < self.windows@.len() && 0 <= j < self.windows@.len() && i != j
                            implies window_key(self.windows@[i]) != window_key(
                        self.windows@[j],
                    ) by {
                        if i == prev.len() {
                            assert(window_key(prev[j]) != key);
                        } else if j == prev.len() {
                            assert(window_key(prev[i]) != key);
                        }
                    }
                }
                true
            },
            Some(i) => {
                let old_w = self.windows[i];
                proof {
                    lemma_windows_map_at(self.windows@, i as int);
                }
                let elapsed: i128 = (now as i128) - (old_w.start as i128);
                let limit_ms: i128 = (limit.interval_sec as i128 + 1) * 1000;
                let (allowed, w) = if elapsed >= limit_ms {
                    assert(whole_seconds(now - old_w.start) > limit.interval_sec);
                    (true, RateWindow { command, user: key_user, count: 1, start: now })
                } else if old_w.count < limit.count {
                    assert(whole_seconds(now - old_w.start) <= limit.interval_sec);
                    (
                        true,
                        RateWindow {
                            command,
                            user: key_user,
                            count: old_w.count + 1,
                            start: old_w.start,
                        },
                    )
                } else {
                    assert(whole_seconds(now - old_w.start) <= limit.interval_sec);
                    (false, old_w)
                };
                let ghost prev = self.windows@;
                self.windows.set(i, w);
                proof {
                    assert(self.windows@ == prev.update(i as int, w));
                    lemma_windows_map_update(prev, i as int, w);
                    assert forall|a: int, b: int|
                        0 <= a < self.windows@.len() && 0 <= b < self.windows@.len() && a != b
                            implies window_key(self.windows@[a]) != window_key(
                        self.windows@[b],
                    ) by {
                        assert(window_key(prev[a]) != window_key(prev[b]));
                    }
                }
                allowed
            },
        }
    }
}

impl RateLimiter {
    /// Whether an invocation of `command` by `user` at `now` runs: a command
    /// with a rate limit is first counted against it, and an invocation over
    /// the limit is dropped without an answer; then it runs unless
    /// `should_fail` refuses it. A command without a limit counts nothing.
    pub fn dispatch(
        &mut self,
        command: u64,
        user: u64,
        limit: Option<RateLimit>,
        now: i64,
        request: &CommandRequest,
    ) -> (r: bool)
        requires
            old(self).wf(),
        ensures
            final(self).wf(),
            match limit {
                None => final(self).windows() == old(self).windows() && r == (refusal(*request) is None),
                Some(l) => {
                    let key = use_key(l, command, user);
                    let (allowed, w) = admission(old(self).windows().get(key), l, now);
                    &&& final(self).windows() == old(self).windows().insert(key, w)
                    &&& r == (allowed && refusal(*request) is None)
                },
            },
    {
        if let Some(l) = limit {
            if !self.check(command, user, l, now) {
                return false;
            }
        }
        should_fail(request).is_none()
    }
}

/// A window never counts more uses than its limit allows (and at least the
/// one that opened it): every use keeps this.
pub proof fn lemma_admission_keeps_bound(w: Option<(u32, i64)>, limit: RateLimit, now: i64)
    requires
        match w {
            Some((count, _)) => 1 <= count <= (if limit.count < 1 {
                1
            } else {
                limit.count
            }),
            None => true,
        },
    ensures
        1 <= admission(w, limit, now).1.0 <= (if limit.count < 1 {
            1
        } else {
            limit.count
        }),
{
}

/// A use is refused exactly when its window is still open and already holds
/// `count` uses; a refused use changes nothing.
pub proof fn lemma_refused_changes_nothing(w: Option<(u32, i64)>, limit: RateLimit, now: i64)
    ensures
        !admission(w, limit, now).0 <==> (w matches Some((count, start)) && whole_seconds(now - start)
            <= limit.interval_sec && count >= limit.count),
        !admission(w, limit, now).0 ==> w == Some(admission(w, limit, now).1),
{
}

/// The uses at `times`, in order, against the window `w`: how many are
/// allowed, and the window after them.
pub open spec fn uses_allowed(w: Option<(u32, i64)>, limit: RateLimit, times: Seq<i64>) -> (
    nat,
    Option<(u32, i64)>,
)
    decreases times.len(),
{
    if times.len() == 0 {
        (0, w)
    } else {
        let (n, before) = uses_allowed(w, limit, times.drop_last());
        let (ok, after) = admission(before, limit, times.last());
        (if ok {
            n + 1
        } else {
            n
        }, Some(after))
    }
}

/// The most uses that one window lets through: `count`, and at least the
/// use that opens it.
pub open spec fn window_quota(limit: RateLimit) -> nat {
    if limit.count < 1 {
        1
    } else {
        limit.count as nat
    }
}

proof fn lemma_prefix_allowed(limit: RateLimit, times: Seq<i64>, k: int)
    requires
        1 <= k <= times.len(),
        forall|i: int|
            0 <= i < times.len() ==> whole_seconds(#[trigger] times[i] - times[0])
                <= limit.interval_sec,
    ensures
        ({
            let n = if k < window_quota(limit) {
                k as nat
            } else {
                window_quota(limit)
            };
            uses_allowed(None, limit, times.take(k)) == (n, Some((n as u32, times[0])))
        }),
    decreases k,
{
    let t = times.take(k);
    assert(t.drop_last() =~= times.take(k - 1));
    assert(t.last() == times[k - 1]);
    if k == 1 {
        assert(times.take(0) =~= Seq::<i64>::empty());
    } else {
        lemma_prefix_allowed(limit, times, k - 1);
        assert(whole_seconds(times[k - 1] - times[0]) <= limit.interval_sec);
    }
}

/// Uses of one command under one key that all fall within the interval
/// after the first of them: the window that the first opens lets exactly
/// the first `count` through (at least the first), and refuses the rest.
pub proof fn lemma_window_lets_count_through(limit: RateLimit, times: Seq<i64>)
    requires
        times.len() > 0,
        forall|i: int|
            0 <= i < times.len() ==> whole_seconds(#[trigger] times[i] - times[0])
                <= limit.interval_sec,
    ensures
        uses_allowed(None, limit, times).0 == if times.len() < window_quota(limit) {
            times.len()
        } else {
            window_quota(limit)
        },
{
    lemma_prefix_allowed(limit, times, times.len() as int);
    assert(times.take(times.len() as int) =~= times);
}

} // verus!
