//! The reminders that wait, in the order in which they fall due.

use crate::calendar::LocalDateTime;
use sorted_insert::SortedInsertByKey;
use vstd::prelude::*;

verus! {

/// Seconds from one scan for due reminders to the next.
pub const SCAN_INTERVAL_SECONDS: u64 = 10;

/// Seconds from one pruning of delivered reminders to the next.
pub const PRUNE_INTERVAL_SECONDS: u64 = 10;

/// How many accepted reminders may wait to be taken into the queue; one
/// more is turned away.
pub const INTAKE_CAPACITY: usize = 30;

/// One reminder: when it is due, what it says, whom it is for, and whether
/// it has been delivered.
#[derive(Debug, PartialEq, Eq)]
pub struct RemindMeJob<R> {
    /// The instant from which the reminder is due.
    pub date: LocalDateTime,
    /// What the reminder says.
    pub msg: String,
    /// Whom the reminder is for; the queue carries it and never looks at it.
    pub recipient: R,
    /// Whether the reminder has been delivered. It starts out false and a
    /// scan sets it, once.
    pub written: bool,
}

impl<R> RemindMeJob<R> {
    /// A reminder that has not been delivered yet.
    pub fn new(date: LocalDateTime, msg: String, recipient: R) -> (job: RemindMeJob<R>)
        ensures
            job == (RemindMeJob { date, msg, recipient, written: false }),
    {
        RemindMeJob { date, msg, recipient, written: false }
    }
}

/// Due times never go down along the sequence.
pub open spec fn ascending<R>(jobs: Seq<RemindMeJob<R>>) -> bool {
    forall|i: int, j: int| 0 <= i < j < jobs.len() ==> (#[trigger] jobs[i]).date.at_or_before(
        (#[trigger] jobs[j]).date,
    )
}

/// Where a reminder due at `date` goes: just behind the last one that is
/// due at or before `date`, and in front where there is none.
pub open spec fn slot<R>(jobs: Seq<RemindMeJob<R>>, date: LocalDateTime) -> int
    decreases jobs.len(),
{
    if jobs.len() == 0 {
        0
    } else if jobs.last().date.at_or_before(date) {
        jobs.len() as int
    } else {
        slot(jobs.drop_last(), date)
    }
}

/// A reminder is due once its time has come, and as long as it has not
/// been delivered.
pub open spec fn is_due<R>(job: RemindMeJob<R>, now: LocalDateTime) -> bool {
    !job.written && job.date.at_or_before(now)
}

/// What a scan at the instant `now` leaves of a reminder: one that is due
/// is marked as delivered, and nothing else changes.
pub open spec fn scanned_job<R>(job: RemindMeJob<R>, now: LocalDateTime) -> RemindMeJob<R> {
    if is_due(job, now) {
        RemindMeJob { written: true, ..job }
    } else {
        job
    }
}

/// What a scan at the instant `now` leaves of the reminders.
pub open spec fn scanned<R>(jobs: Seq<RemindMeJob<R>>, now: LocalDateTime) -> Seq<RemindMeJob<R>> {
    Seq::new(jobs.len(), |i: int| scanned_job(jobs[i], now))
}

/// The positions of the reminders that are due at the instant `now`, in
/// ascending order.
pub open spec fn due_positions<R>(jobs: Seq<RemindMeJob<R>>, now: LocalDateTime) -> Seq<usize>
    decreases jobs.len(),
{
    if jobs.len() == 0 {
        Seq::empty()
    } else if is_due(jobs.last(), now) {
        due_positions(jobs.drop_last(), now).push((jobs.len() - 1) as usize)
    } else {
        due_positions(jobs.drop_last(), now)
    }
}

/// The reminders that have not been delivered, in their order.
pub open spec fn pending<R>(jobs: Seq<RemindMeJob<R>>) -> Seq<RemindMeJob<R>> {
    jobs.filter(|job: RemindMeJob<R>| !job.written)
}

/// The waiting reminders, kept in ascending order of their due times;
/// reminders due at the same instant stay in the order in which they came.
pub struct ReminderQueue<R> {
    jobs: Vec<RemindMeJob<R>>,
}

impl<R> View for ReminderQueue<R> {
    type V = Seq<RemindMeJob<R>>;

    closed spec fn view(&self) -> Seq<RemindMeJob<R>> {
        self.jobs@
    }
}

impl<R> ReminderQueue<R> {
    /// The order that the queue keeps: due times never go down from one
    /// position to the next. `new` gives a queue in order, and every method
    /// that changes a queue in order leaves it in order.
    pub open spec fn wf(&self) -> bool {
        ascending(self@)
    }

    /// A queue with nothing in it.
    pub fn new() -> (queue: ReminderQueue<R>)
        ensures
            queue@ == Seq::<RemindMeJob<R>>::empty(),
            queue.wf(),
    {
        ReminderQueue { jobs: Vec::new() }
    }

    /// The number of reminders held, delivered or not.
    pub fn len(&self) -> (n: usize)
        ensures
            n == self@.len(),
    {
        self.jobs.len()
    }

    /// The reminder at a position, counted from the one that is due first.
    pub fn get(&self, index: usize) -> (job: Option<&RemindMeJob<R>>)
        ensures
            index < self@.len() ==> job == Some(&self@[index as int]),
            index >= self@.len() ==> job is None,
    {
        if index < self.jobs.len() {
            Some(&self.jobs[index])
        } else {
            None
        }
    }

    /// Takes a reminder in at its slot and returns the position it got.
    pub fn insert(&mut self, job: RemindMeJob<R>) -> (index: usize)
        ensures
            index == slot(old(self)@, job.date),
            final(self)@ == old(self)@.insert(index as int, job),
            old(self).wf() ==> final(self).wf(),
    {
        proof {
            if self.wf() {
                lemma_insert_ascending(self.jobs@, job);
            }
        }
        insert_by_date(&mut self.jobs, job)
    }

    /// Marks every reminder that is due at the instant `now` as delivered
    /// and returns the positions of those reminders, first due first. What
    /// they say and whom they are for is read at these positions.
    pub fn fire_due(&mut self, now: LocalDateTime) -> (due: Vec<usize>)
        ensures
            final(self)@ == scanned(old(self)@, now),
            due@ == due_positions(old(self)@, now),
            old(self).wf() ==> final(self).wf(),
    {
        let ghost before = self.jobs@;
        let mut due: Vec<usize> = Vec::new();
        let mut i: usize = 0;
        while i < self.jobs.len()
            invariant
                i <= self.jobs@.len() == before.len(),
                forall|k: int| 0 <= k < i ==> self.jobs@[k] == scanned_job(before[k], now),
                forall|k: int| i <= k < before.len() ==> self.jobs@[k] == before[k],
                due@ == due_positions(before.take(i as int), now),
            decreases self.jobs@.len() - i,
        {
            proof {
                assert(before.take(i + 1).drop_last() =~= before.take(i as int));
            }
            if !self.jobs[i].written && self.jobs[i].date <= now {
                self.jobs[i].written = true;
                due.push(i);
            }
            i = i + 1;
        }
        proof {
            assert(before.take(i as int) =~= before);
        }
        due
    }

    /// Drops every reminder that has been delivered. The others stay, in
    /// their order.
    pub fn prune(&mut self)
        ensures
            final(self)@ == pending(old(self)@),
            old(self).wf() ==> final(self).wf(),
    {
        let ghost before = self.jobs@;
        let mut held: Vec<RemindMeJob<R>> = Vec::new();
        core::mem::swap(&mut self.jobs, &mut held);
        for job in it: held
            invariant
                it.seq() == before,
                self.jobs@ == pending(before.take(it.index())),
        {
            proof {
                reveal(Seq::filter);
                assert(before.take(it.index() + 1).drop_last() =~= before.take(it.index()));
            }
            if !job.written {
                self.jobs.push(job);
            }
        }
        proof {
            assert(before.take(before.len() as int) =~= before);
            lemma_pending_ascending(before);
        }
    }
}

/// Inserts with `sorted_insert::SortedInsertByKey::sorted_insert_asc_by_key`,
/// keyed by the due time.
///
/// Not proved, taken from the source of `sorted_insert`: it looks from the
/// back for the last element whose key is `<=` the new key, inserts the new
/// element just behind it, or in front where there is none, and returns that
/// position. `<=` on `LocalDateTime` is std's `PartialOrd::le`, which goes by
/// the `partial_cmp` that `calendar` proves.
#[verifier::external_body]
fn insert_by_date<R>(jobs: &mut Vec<RemindMeJob<R>>, job: RemindMeJob<R>) -> (index: usize)
    ensures
        index == slot(old(jobs)@, job.date),
        final(jobs)@ == old(jobs)@.insert(index as int, job),
{
    jobs.sorted_insert_asc_by_key(job, |e| &e.date)
}

/// The slot lies within the sequence or at its end. All that stands behind
/// it is due later than `date`, and in an ascending sequence all that
/// stands before it is due at or before `date`.
pub proof fn lemma_slot<R>(jobs: Seq<RemindMeJob<R>>, date: LocalDateTime)
    ensures
        0 <= slot(jobs, date) <= jobs.len(),
        forall|i: int| slot(jobs, date) <= i < jobs.len() ==> date.before(#[trigger] jobs[i].date),
        ascending(jobs) ==> forall|i: int|
            0 <= i < slot(jobs, date) ==> (#[trigger] jobs[i]).date.at_or_before(date),
    decreases jobs.len(),
{
    if jobs.len() > 0 && !jobs.last().date.at_or_before(date) {
        let rest = jobs.drop_last();
        lemma_slot(rest, date);
        assert forall|i: int| slot(jobs, date) <= i < jobs.len() implies date.before(
            #[trigger] jobs[i].date,
        ) by {
            if i < rest.len() {
                assert(rest[i] == jobs[i]);
            }
        }
        if ascending(jobs) {
            assert(ascending(rest));
            assert forall|i: int| 0 <= i < slot(jobs, date) implies (
            #[trigger] jobs[i]).date.at_or_before(date) by {
                assert(rest[i] == jobs[i]);
            }
        }
    }
}

/// Putting a reminder into its slot keeps an ascending sequence ascending.
pub proof fn lemma_insert_ascending<R>(jobs: Seq<RemindMeJob<R>>, job: RemindMeJob<R>)
    requires
        ascending(jobs),
    ensures
        ascending(jobs.insert(slot(jobs, job.date), job)),
{
    lemma_slot(jobs, job.date);
}

/// What is left after the delivered reminders are dropped was all there
/// before, and is ascending where the sequence was.
pub proof fn lemma_pending_ascending<R>(jobs: Seq<RemindMeJob<R>>)
    ensures
        forall|k: int|
            0 <= k < pending(jobs).len() ==> jobs.contains(#[trigger] pending(jobs)[k]) && !pending(
                jobs,
            )[k].written,
        ascending(jobs) ==> ascending(pending(jobs)),
    decreases jobs.len(),
{
    reveal(Seq::filter);
    if jobs.len() > 0 {
        let rest = jobs.drop_last();
        lemma_pending_ascending(rest);
        assert forall|k: int| 0 <= k < pending(jobs).len() implies jobs.contains(
            #[trigger] pending(jobs)[k],
        ) by {
            if k < pending(rest).len() {
                let m = choose|m: int| 0 <= m < rest.len() && rest[m] == pending(rest)[k];
                assert(jobs[m] == pending(jobs)[k]);
            }
        }
        if ascending(jobs) {
            assert(ascending(rest));
            assert forall|i: int, j: int| 0 <= i < j < pending(jobs).len() implies (
            #[trigger] pending(jobs)[i]).date.at_or_before((#[trigger] pending(jobs)[j]).date) by {
                if j >= pending(rest).len() {
                    let m = choose|m: int| 0 <= m < rest.len() && rest[m] == pending(rest)[i];
                    assert(jobs[m].date.at_or_before(jobs.last().date));
                }
            }
        }
    }
}

/// The positions that a scan reports are those of the due reminders, each
/// of them once, in ascending order.
pub proof fn lemma_due_positions<R>(jobs: Seq<RemindMeJob<R>>, now: LocalDateTime)
    requires
        jobs.len() <= usize::MAX,
    ensures
        forall|k: int|
            0 <= k < due_positions(jobs, now).len() ==> (#[trigger] due_positions(jobs, now)[k])
                < jobs.len() && is_due(jobs[due_positions(jobs, now)[k] as int], now),
        forall|a: int, b: int|
            0 <= a < b < due_positions(jobs, now).len() ==> (#[trigger] due_positions(jobs, now)[a])
                < (#[trigger] due_positions(jobs, now)[b]),
        forall|p: int|
            0 <= p < jobs.len() && is_due(#[trigger] jobs[p], now) ==> due_positions(
                jobs,
                now,
            ).contains(p as usize),
    decreases jobs.len(),
{
    if jobs.len() > 0 {
        let rest = jobs.drop_last();
        let found = due_positions(jobs, now);
        let before = due_positions(rest, now);
        lemma_due_positions(rest, now);
        assert forall|p: int| 0 <= p < jobs.len() && is_due(
            #[trigger] jobs[p],
            now,
        ) implies found.contains(p as usize) by {
            if p < rest.len() {
                assert(rest[p] == jobs[p]);
                let k = choose|k: int| 0 <= k < before.len() && before[k] == p as usize;
                assert(found[k] == p as usize);
            } else {
                assert(found[found.len() - 1] == p as usize);
            }
        }
    }
}

/// A scan changes nothing of a reminder but the mark that it has been
/// delivered, and never takes that mark away.
pub proof fn lemma_scan_marks_only<R>(jobs: Seq<RemindMeJob<R>>, now: LocalDateTime, i: int)
    requires
        0 <= i < jobs.len(),
    ensures
        scanned(jobs, now)[i].date == jobs[i].date,
        scanned(jobs, now)[i].msg == jobs[i].msg,
        scanned(jobs, now)[i].recipient == jobs[i].recipient,
        scanned(jobs, now)[i].written == (jobs[i].written || jobs[i].date.at_or_before(now)),
{
}

/// No reminder is delivered twice. After a scan at the instant `now`, a
/// scan at any instant reports no reminder that had been delivered before,
/// nor one that the first scan reported; a second scan at the same instant
/// reports nothing and changes nothing.
pub proof fn lemma_scan_again<R>(
    jobs: Seq<RemindMeJob<R>>,
    now: LocalDateTime,
    later: LocalDateTime,
)
    requires
        jobs.len() <= usize::MAX,
    ensures
        forall|k: int|
            0 <= k < due_positions(scanned(jobs, now), later).len() ==> {
                let p = #[trigger] due_positions(scanned(jobs, now), later)[k];
                p < jobs.len() && !jobs[p as int].written && !is_due(jobs[p as int], now)
                    && !due_positions(jobs, now).contains(p)
            },
        due_positions(scanned(jobs, now), now) == Seq::<usize>::empty(),
        scanned(scanned(jobs, now), now) == scanned(jobs, now),
{
    let once = scanned(jobs, now);
    lemma_due_positions(once, later);
    lemma_due_positions(once, now);
    lemma_due_positions(jobs, now);
    if due_positions(once, now).len() > 0 {
        let p = due_positions(once, now)[0];
        assert(is_due(once[p as int], now));
    }
    assert(scanned(once, now) =~= once);
}

/// Dropping the delivered reminders leaves every other one in place, and
/// doing it again changes nothing.
pub proof fn lemma_pending_keeps<R>(jobs: Seq<RemindMeJob<R>>)
    ensures
        forall|i: int|
            0 <= i < jobs.len() && !(#[trigger] jobs[i]).written ==> pending(jobs).contains(
                jobs[i],
            ),
        pending(pending(jobs)) == pending(jobs),
        pending(jobs).len() <= jobs.len(),
    decreases jobs.len(),
{
    reveal(Seq::filter);
    if jobs.len() > 0 {
        let rest = jobs.drop_last();
        lemma_pending_keeps(rest);
        assert forall|i: int| 0 <= i < jobs.len() && !(#[trigger] jobs[i]).written implies pending(
            jobs,
        ).contains(jobs[i]) by {
            if i < rest.len() {
                let k = choose|k: int| 0 <= k < pending(rest).len() && pending(rest)[k] == rest[i];
                assert(pending(jobs)[k] == jobs[i]);
            } else {
                assert(pending(jobs).last() == jobs[i]);
            }
        }
        if !jobs.last().written {
            assert(pending(jobs).drop_last() =~= pending(rest));
        }
    }
}

} // verus!
