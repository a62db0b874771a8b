//! A scheduler that fires reminders at their due instants, in order
//!
//! The scheduler holds the decisions of the delivery loop: which reminder is due next, who is
//! on duty when it fires, and when it is due again. The caller owns the clock and the
//! integrations: it waits until the instant that `next_due` gives, calls `next`, and hands the
//! firing it returns to each integration in turn. Instants on that clock are nanoseconds since
//! an origin of the caller's choosing.

use crate::datetime::DateTime;
use crate::reminder::Reminder;
use crate::schedule::next_duration;
use crate::user::{self, User, UserManagement};
use vstd::prelude::*;

verus! {

/// Real-time scheduler errors
#[derive(Debug)]
pub enum Error {
    /// A scheduled reminder is missing from the scheduler's index
    Unavailable(i32),
    /// The assignee of a firing reminder could not be obtained
    Assignees(user::Error),
}

/// Providers for scheduling data
pub struct Providers<'a, U: UserManagement> {
    /// Provider for user data
    pub user: &'a U,
}

/// The assignees a firing reports for the outcome of the assignee lookup: the user found, or
/// none where no lookup was made
pub open spec fn lookup_assignees(lookup: Option<Result<User, user::Error>>) -> Seq<User> {
    match lookup {
        Some(Ok(user)) => seq![user],
        _ => Seq::empty(),
    }
}

/// A fired reminder, as every integration is to be told of it
pub struct Firing {
    /// Uid of the reminder that fired
    pub uid: i32,
    /// The assignee on duty, where integrations are notified; empty otherwise
    pub assignees: Vec<User>,
    /// The instant at which the reminder fired
    pub timestamp: DateTime,
}

/// A queued firing: the uid of a reminder and the instant it is due
#[derive(Clone, Copy, Debug, PartialEq, Eq, Structural)]
pub struct QueueEntry {
    /// Uid of the reminder
    pub uid: i32,
    /// Instant at which the reminder is due, on the caller's clock
    pub due: u64,
}

/// Entries in the order they leave the queue: by due instant
pub open spec fn sorted_by_due(q: Seq<QueueEntry>) -> bool {
    forall|i: int, j: int| 0 <= i <= j < q.len() ==> q[i].due <= q[j].due
}

/// Position `k` splits the queue into the entries due at or before `due` and those due after
pub open spec fn splits_at(q: Seq<QueueEntry>, due: u64, k: int) -> bool {
    &&& 0 <= k <= q.len()
    &&& forall|j: int| 0 <= j < k ==> q[j].due <= due
    &&& forall|j: int| k <= j < q.len() ==> q[j].due > due
}

/// Where an entry due at `due` joins the queue: after every entry due at or before it, so
/// that entries due at the same instant leave in the order they joined
pub open spec fn insertion_point(q: Seq<QueueEntry>, due: u64) -> int {
    choose|k: int| #[trigger] splits_at(q, due, k)
}

/// The queue once `e` has joined it
pub open spec fn enqueue(q: Seq<QueueEntry>, e: QueueEntry) -> Seq<QueueEntry> {
    q.insert(insertion_point(q, e.due), e)
}

/// The instant `d` nanoseconds after `clock`, held at the largest instant
pub open spec fn due_after(clock: u64, d: int) -> u64 {
    if clock + d > u64::MAX {
        u64::MAX
    } else {
        (clock + d) as u64
    }
}

/// The queue once reminder `r` is armed for its next occurrence after `now`; unchanged where
/// the reminder has none
pub open spec fn arm(q: Seq<QueueEntry>, r: Reminder, now: DateTime, clock: u64) -> Seq<
    QueueEntry,
> {
    match next_duration(r.schedule.weekly_times@, now) {
        Some(d) => enqueue(q, QueueEntry { uid: r.uid, due: due_after(clock, d) }),
        None => q,
    }
}

/// The queue once each of `rs` is armed, in order
pub open spec fn initial_queue(rs: Seq<Reminder>, now: DateTime, clock: u64) -> Seq<QueueEntry>
    decreases rs.len(),
{
    if rs.len() == 0 {
        Seq::empty()
    } else {
        arm(initial_queue(rs.drop_last(), now, clock), rs.last(), now, clock)
    }
}

/// No two reminders share a uid
pub open spec fn distinct_uids(rs: Seq<Reminder>) -> bool {
    forall|i: int, j: int| 0 <= i < j < rs.len() ==> rs[i].uid != rs[j].uid
}

/// Some reminder has the uid
pub open spec fn has_uid(rs: Seq<Reminder>, uid: i32) -> bool {
    exists|j: int| 0 <= j < rs.len() && rs[j].uid == uid
}

/// The reminder with the uid
pub open spec fn reminder_with_uid(rs: Seq<Reminder>, uid: i32) -> Reminder {
    rs[choose|j: int| 0 <= j < rs.len() && rs[j].uid == uid]
}

/// A real-time scheduler for scheduled reminders
pub struct Scheduler {
    /// Every reminder, each with a distinct uid
    reminders: Vec<Reminder>,
    /// Queue of due instants, earliest first
    queue: Vec<QueueEntry>,
}

impl Scheduler {
    /// The reminders the scheduler tracks
    pub closed spec fn reminders(&self) -> Seq<Reminder> {
        self.reminders@
    }

    /// The pending firings, in the order they leave the queue
    pub closed spec fn queue(&self) -> Seq<QueueEntry> {
        self.queue@
    }

    /// The index and the queue agree: uids are distinct in both, the queue is ordered by due instant, and each queued uid names a tracked reminder
    pub closed spec fn wf(&self) -> bool {
        &&& distinct_uids(self.reminders@)
        &&& sorted_by_due(self.queue@)
        &&& forall|i: int, j: int| 0 <= i < j < self.queue@.len() ==> self.queue@[i].uid != self.queue@[j].uid
        &&& forall|i: int| 0 <= i < self.queue@.len() ==> has_uid(self.reminders@, #[trigger] self.queue@[i].uid)
    }
}

/// There is one place where an entry can join the queue
proof fn lemma_splits_at_unique(q: Seq<QueueEntry>, due: u64, a: int, b: int)
    requires
        splits_at(q, due, a),
        splits_at(q, due, b),
    ensures
        a == b,
{
    if a < b {
        assert(q[a].due > due);
    } else if b < a {
        assert(q[b].due > due);
    }
}

/// Where the queue splits, it takes the new entry in order, and each entry of the result is
/// either the new one or one that was there
proof fn lemma_enqueue(q: Seq<QueueEntry>, e: QueueEntry)
    requires
        sorted_by_due(q),
        splits_at(q, e.due, insertion_point(q, e.due)),
    ensures
        enqueue(q, e).len() == q.len() + 1,
        sorted_by_due(enqueue(q, e)),
        forall|k: int|
            0 <= k < enqueue(q, e).len() ==> #[trigger] enqueue(q, e)[k] == if k < insertion_point(
                q,
                e.due,
            ) {
                q[k]
            } else if k == insertion_point(q, e.due) {
                e
            } else {
                q[k - 1]
            },
{
    let p = insertion_point(q, e.due);
    q.insert_ensures(p, e);
    let r = enqueue(q, e);
    assert forall|k: int| 0 <= k < r.len() implies #[trigger] r[k] == if k < p {
        q[k]
    } else if k == p {
        e
    } else {
        q[k - 1]
    } by {
        if k > p {
            assert(r[(k - 1) + 1] == q[k - 1]);
        }
    }
}

/// Adds an entry to the queue after every entry due at or before it
fn push_entry(queue: &mut Vec<QueueEntry>, e: QueueEntry)
    requires
        sorted_by_due(old(queue)@),
    ensures
        final(queue)@ == enqueue(old(queue)@, e),
        splits_at(old(queue)@, e.due, insertion_point(old(queue)@, e.due)),
{
    let mut i: usize = 0;
    while i < queue.len() && queue[i].due <= e.due
        invariant
            i <= queue@.len(),
            queue@ == old(queue)@,
            forall|j: int| 0 <= j < i ==> queue@[j].due <= e.due,
        decreases queue@.len() - i,
    {
        i += 1;
    }
    proof {
        let q = queue@;
        assert(splits_at(q, e.due, i as int));
        let k = insertion_point(q, e.due);
        lemma_splits_at_unique(q, e.due, i as int, k);
    }
    queue.insert(i, e);
}

impl Scheduler {
    /// Looks up the index of the reminder with the given uid
    fn find(&self, uid: i32) -> (r: Option<usize>)
        ensures
            match r {
                Some(j) => j < self.reminders@.len() && self.reminders@[j as int].uid == uid,
                None => !has_uid(self.reminders@, uid),
            },
    {
        let mut j: usize = 0;
        while j < self.reminders.len()
            invariant
                j <= self.reminders@.len(),
                forall|m: int| 0 <= m < j ==> self.reminders@[m].uid != uid,
            decreases self.reminders@.len() - j,
        {
            if self.reminders[j].uid == uid {
                return Some(j);
            }
            j += 1;
        }
        None
    }

    /// Adds the reminder at index `j` to the queue for its next occurrence after `now`, if it
    /// has one
    fn arm(&mut self, j: usize, now: DateTime, clock: u64)
        requires
            j < old(self).reminders@.len(),
            now.wf(),
            sorted_by_due(old(self).queue@),
        ensures
            final(self).reminders@ == old(self).reminders@,
            final(self).queue@ == arm(old(self).queue@, old(self).reminders@[j as int], now, clock),
            sorted_by_due(final(self).queue@),
            next_duration(old(self).reminders@[j as int].schedule.weekly_times@, now) is Some
                ==> splits_at(
                old(self).queue@,
                due_after(clock, next_duration(old(self).reminders@[j as int].schedule.weekly_times@, now)->0),
                insertion_point(
                    old(self).queue@,
                    due_after(clock, next_duration(old(self).reminders@[j as int].schedule.weekly_times@, now)->0),
                ),
            ),
    {
        let uid = self.reminders[j].uid;
        match self.reminders[j].schedule.get_next_duration(now) {
            Some(d) => {
                let e = QueueEntry { uid, due: clock.saturating_add(d) };
                push_entry(&mut self.queue, e);
                proof {
                    lemma_enqueue(old(self).queue@, e);
                }
            },
            None => {},
        }
    }

    /// Creates a new real-time scheduler for the given reminders, as of the instant `now`,
    /// which is `clock` on the caller's clock. Each reminder with a next occurrence is queued
    /// for it; one without stays tracked but is never queued.
    pub fn new(reminders: Vec<Reminder>, now: DateTime, clock: u64) -> (r: Scheduler)
        requires
            now.wf(),
            distinct_uids(reminders@),
        ensures
            r.wf(),
            r.reminders() == reminders@,
            r.queue() == initial_queue(reminders@, now, clock),
    {
        let mut s = Scheduler { reminders, queue: Vec::new() };
        let n = s.reminders.len();
        let mut i: usize = 0;
        while i < n
            invariant
                n == s.reminders@.len(),
                i <= n,
                now.wf(),
                s.reminders@ == reminders@,
                distinct_uids(reminders@),
                s.queue@ == initial_queue(reminders@.take(i as int), now, clock),
                sorted_by_due(s.queue@),
                forall|a: int, b: int| 0 <= a < b < s.queue@.len() ==> s.queue@[a].uid != s.queue@[b].uid,
                forall|k: int| 0 <= k < s.queue@.len() ==> has_uid(reminders@.take(i as int), #[trigger] s.queue@[k].uid),
            decreases n - i,
        {
            let ghost q0 = s.queue@;
            let ghost rs = reminders@;
            s.arm(i, now, clock);
            proof {
                assert(rs.take(i + 1).drop_last() =~= rs.take(i as int));
                assert(rs.take(i + 1).last() == rs[i as int]);
                let t = rs.take(i + 1);
                assert forall|k: int| 0 <= k < q0.len() implies has_uid(t, #[trigger] q0[k].uid)
                    && q0[k].uid != rs[i as int].uid by {
                    assert(has_uid(rs.take(i as int), q0[k].uid));
                    let m = choose|m: int| 0 <= m < rs.take(i as int).len() && rs.take(i as int)[m].uid == q0[k].uid;
                    assert(t[m] == rs[m]);
                }
                assert(t[i as int] == rs[i as int]);
                if next_duration(rs[i as int].schedule.weekly_times@, now) is Some {
                    let e = QueueEntry {
                        uid: rs[i as int].uid,
                        due: due_after(clock, next_duration(rs[i as int].schedule.weekly_times@, now)->0),
                    };
                    lemma_enqueue(q0, e);
                    assert(has_uid(t, e.uid));
                }
            }
            i += 1;
        }
        assert(reminders@.take(n as int) =~= reminders@);
        s
    }
}

impl Scheduler {
    /// The instant at which the earliest queued firing is due, on the caller's clock; none
    /// once the queue is empty and the scheduler is idle
    pub fn next_due(&self) -> (r: Option<u64>)
        requires
            self.wf(),
        ensures
            self.queue().len() == 0 ==> r is None,
            self.queue().len() > 0 ==> r == Some(self.queue()[0].due),
            forall|i: int| 0 <= i < self.queue().len() ==> r->0 <= #[trigger] self.queue()[i].due,
    {
        if self.queue.len() == 0 {
            None
        } else {
            Some(self.queue[0].due)
        }
    }

    /// The reminder that fires next, if any
    pub fn next_reminder(&self) -> (r: Option<&Reminder>)
        requires
            self.wf(),
        ensures
            self.queue().len() == 0 ==> r is None,
            self.queue().len() > 0 ==> r == Some(
                &reminder_with_uid(self.reminders(), self.queue()[0].uid),
            ),
    {
        if self.queue.len() == 0 {
            None
        } else {
            let uid = self.queue[0].uid;
            match self.find(uid) {
                Some(j) => {
                    proof {
                        self.lemma_reminder_with_uid(j as int);
                    }
                    Some(&self.reminders[j])
                },
                None => None,
            }
        }
    }

    /// The tracked reminder with the given uid, queued or dormant
    pub fn get(&self, uid: i32) -> (r: Option<&Reminder>)
        requires
            self.wf(),
        ensures
            has_uid(self.reminders(), uid) ==> r == Some(&reminder_with_uid(self.reminders(), uid)),
            !has_uid(self.reminders(), uid) ==> r is None,
    {
        match self.find(uid) {
            Some(j) => {
                proof {
                    self.lemma_reminder_with_uid(j as int);
                }
                Some(&self.reminders[j])
            },
            None => None,
        }
    }

    proof fn lemma_reminder_with_uid(&self, j: int)
        requires
            self.wf(),
            0 <= j < self.reminders@.len(),
        ensures
            has_uid(self.reminders@, self.reminders@[j].uid),
            reminder_with_uid(self.reminders@, self.reminders@[j].uid) == self.reminders@[j],
    {
        let rs = self.reminders@;
        assert(has_uid(rs, rs[j].uid));
        let m = choose|m: int| 0 <= m < rs.len() && rs[m].uid == rs[j].uid;
        assert(m == j);
    }

    /// Takes the earliest queued firing off the queue, which the caller has waited for, and
    /// returns the uid of its reminder; none when the queue is empty
    pub fn pop_due(&mut self) -> (r: Option<i32>)
        requires
            old(self).wf(),
        ensures
            final(self).wf(),
            final(self).reminders() == old(self).reminders(),
            old(self).queue().len() == 0 ==> r is None,
            old(self).queue().len() == 0 ==> final(self).queue() == old(self).queue(),
            old(self).queue().len() > 0 ==> r == Some(old(self).queue()[0].uid),
            old(self).queue().len() > 0 ==> final(self).queue() == old(self).queue().drop_first(),
            r matches Some(uid) ==> has_uid(final(self).reminders(), uid) && forall|i: int|
                0 <= i < final(self).queue().len() ==> #[trigger] final(self).queue()[i].uid != uid,
    {
        if self.queue.len() == 0 {
            return None;
        }
        let ghost q0 = self.queue@;
        let entry = self.queue.remove(0);
        proof {
            q0.remove_ensures(0);
            assert(q0.remove(0) =~= q0.drop_first());
            assert(has_uid(self.reminders@, q0[0].uid));
            assert forall|k: int| 0 <= k < self.queue@.len() implies #[trigger] self.queue@[k].uid
                != entry.uid && has_uid(self.reminders@, self.queue@[k].uid) by {
                assert(self.queue@[k] == q0[k + 1]);
                assert(has_uid(self.reminders@, q0[k + 1].uid));
            }
        }
        Some(entry.uid)
    }

    /// Completes the firing of reminder `uid`, given the outcome of looking up its assignee
    /// (none where no integration is to be notified): on success, queues the reminder for
    /// its next occurrence after `now`, on the caller's clock at `clock`, and returns the
    /// notification to deliver to every integration; a failed lookup abandons the firing
    /// with the identity error and leaves the reminder unqueued
    pub fn finish(
        &mut self,
        uid: i32,
        lookup: Option<Result<User, user::Error>>,
        now: DateTime,
        clock: u64,
    ) -> (r: Result<Firing, Error>)
        requires
            old(self).wf(),
            now.wf(),
            has_uid(old(self).reminders(), uid),
            forall|i: int| 0 <= i < old(self).queue().len() ==> #[trigger] old(self).queue()[i].uid != uid,
        ensures
            final(self).wf(),
            final(self).reminders() == old(self).reminders(),
            match lookup {
                Some(Err(e)) => {
                    &&& r == Err::<Firing, Error>(Error::Assignees(e))
                    &&& final(self).queue() == old(self).queue()
                },
                _ => {
                    &&& r is Ok
                    &&& r->Ok_0.uid == uid
                    &&& r->Ok_0.timestamp == now
                    &&& r->Ok_0.assignees@ == lookup_assignees(lookup)
                    &&& final(self).queue() == arm(
                        old(self).queue(),
                        reminder_with_uid(old(self).reminders(), uid),
                        now,
                        clock,
                    )
                },
            },
    {
        let mut assignees: Vec<User> = Vec::new();
        match lookup {
            Some(Ok(user)) => assignees.push(user),
            Some(Err(e)) => return Err(Error::Assignees(e)),
            None => {},
        }
        let j = match self.find(uid) {
            Some(j) => j,
            None => return Err(Error::Unavailable(uid)),
        };
        proof {
            self.lemma_reminder_with_uid(j as int);
        }
        let ghost q1 = self.queue@;
        proof {
            assert forall|k: int| 0 <= k < q1.len() implies #[trigger] q1[k].uid != uid by {
                assert(old(self).queue()[k].uid != uid);
            }
        }
        self.arm(j, now, clock);
        proof {
            let r = self.reminders@[j as int];
            if next_duration(r.schedule.weekly_times@, now) is Some {
                let e = QueueEntry {
                    uid,
                    due: due_after(clock, next_duration(r.schedule.weekly_times@, now)->0),
                };
                lemma_enqueue(q1, e);
                assert(has_uid(self.reminders@, uid));
            }
            assert(assignees@ =~= lookup_assignees(lookup));
        }
        Ok(Firing { uid, assignees, timestamp: now })
    }

    /// Processes the earliest queued firing, which the caller has waited for: when
    /// integrations are to be notified, looks up who is on duty at `now`; then completes the
    /// firing as `finish` does. Returns the notification to deliver to every integration, or
    /// none when the queue is empty.
    pub fn next<U: UserManagement>(
        &mut self,
        providers: &Providers<U>,
        notify: bool,
        now: DateTime,
        clock: u64,
    ) -> (r: Result<Option<Firing>, Error>)
        requires
            old(self).wf(),
            now.wf(),
            old(self).queue().len() > 0 && notify ==> reminder_with_uid(
                old(self).reminders(),
                old(self).queue()[0].uid,
            ).schedule.assignees@.len() > 0,
        ensures
            final(self).wf(),
            final(self).reminders() == old(self).reminders(),
            old(self).queue().len() == 0 ==> (r matches Ok(None)),
            old(self).queue().len() == 0 ==> final(self).queue() == old(self).queue(),
            old(self).queue().len() > 0 ==> match r {
                Ok(Some(f)) => {
                    &&& f.uid == old(self).queue()[0].uid
                    &&& f.timestamp == now
                    &&& f.assignees@.len() == if notify {
                        1int
                    } else {
                        0int
                    }
                    &&& final(self).queue() == arm(
                        old(self).queue().drop_first(),
                        reminder_with_uid(old(self).reminders(), f.uid),
                        now,
                        clock,
                    )
                },
                Err(Error::Assignees(_)) => {
                    &&& notify
                    &&& final(self).queue() == old(self).queue().drop_first()
                },
                _ => false,
            },
    {
        let uid = match self.pop_due() {
            Some(uid) => uid,
            None => return Ok(None),
        };
        let lookup = if notify {
            let j = match self.find(uid) {
                Some(j) => j,
                None => return Err(Error::Unavailable(uid)),
            };
            proof {
                self.lemma_reminder_with_uid(j as int);
            }
            let assignee = self.reminders[j].schedule.get_assignee(now);
            Some(providers.user.get_by_uid(assignee))
        } else {
            None
        };
        match self.finish(uid, lookup, now, clock) {
            Ok(firing) => Ok(Some(firing)),
            Err(e) => Err(e),
        }
    }
}

} // verus!
