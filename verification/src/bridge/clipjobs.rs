//! Clipboard work only the Wayland side may do, posted by the X side.
//!
//! Every data-control object (the offers the compositor announces, the sources we
//! publish, the connection they live on) belongs to the Wayland event queue. So
//! the X side posts a job here and goes on serving its client; nothing waits for
//! the answer: a conversion is finished by the job itself, through
//! [`PendingConversion`].

use crate::bridge::clipboard::{DataOffer, Sel};
use crate::bridge::x11::targets;
use crate::util::list;
use vstd::prelude::*;

verus! {

/// How long a job may sit in the queue, in milliseconds, before it is of no use to
/// whoever asked. The same budget a conversion gets once it is running, so waiting
/// to start and waiting to finish cost the requestor the same.
///
/// It is enforced from the X side, by [`Jobs::sweep`] and [`Jobs::post`], because
/// the case it exists for is the Wayland side being *wedged* rather than gone:
/// nothing drains the queue, and a conversion would otherwise wait for a
/// `SelectionNotify` that never comes.
pub const QUEUE_TIMEOUT: u64 = 30_000;

/// How many jobs may be waiting at once. Only a wedged Wayland side gets anywhere
/// near this; past it the work is refused rather than queued, since a conversion
/// answered much later is of no use to the client that asked.
pub const MAX_JOBS: usize = 64;

/// A `ConvertSelection` waiting on a value that has to come out of a Wayland app:
/// who asked, and where the value goes. It is answered once, with a value or with
/// a refusal; whatever becomes of a job, the client that asked must be answered.
pub struct PendingConversion {
    /// The connection that asked.
    pub client: u64,
    pub requestor: u32,
    pub selection: u32,
    pub target: u32,
    pub property: u32,
    pub time: u32,
    /// The property type to deliver the value as.
    pub type_: u32,
    /// Whether the (UTF-8) value must be transcoded to Latin-1 first.
    pub latin1: bool,
}

/// What answers a conversion: the property to store on the requestor, if it got
/// the value, and the `SelectionNotify` to send it.
pub struct Answer {
    pub client: u64,
    pub requestor: u32,
    pub selection: u32,
    pub target: u32,
    pub time: u32,
    /// The property that the notification names: 0 for a refusal.
    pub property: u32,
    /// Its type and bytes, for a conversion that got the value.
    pub value: Option<(u32, Vec<u8>)>,
}

impl PendingConversion {
    pub fn new(
        client: u64,
        requestor: u32,
        selection: u32,
        target: u32,
        property: u32,
        time: u32,
        type_: u32,
        latin1: bool,
    ) -> (c: Self)
        ensures
            c == (PendingConversion { client, requestor, selection, target, property, time, type_, latin1 }),
    {
        PendingConversion { client, requestor, selection, target, property, time, type_, latin1 }
    }

    /// `a` goes to the requestor of this conversion and says `property`.
    pub open spec fn answered_by(self, a: Answer, property: u32) -> bool {
        &&& a.client == self.client
        &&& a.requestor == self.requestor
        &&& a.selection == self.selection
        &&& a.target == self.target
        &&& a.time == self.time
        &&& a.property == property
    }

    /// Answers the requestor with `data`, or with `None` refuses it.
    pub fn finish(self, data: Option<Vec<u8>>) -> (a: Answer)
        ensures
            data is None ==> self.answered_by(a, 0) && a.value is None,
            data matches Some(d) ==> self.answered_by(a, self.property) && (a.value matches Some((type_, bytes))
                && type_ == self.type_ && bytes@ == if self.latin1 {
                targets::utf8_lossy(d@).map_values(|c: char| targets::latin1_byte(c))
            } else {
                d@
            }),
    {
        let (property, value): (u32, Option<(u32, Vec<u8>)>) = match data {
            None => (0, None),
            Some(d) => {
                let bytes = if self.latin1 { targets::to_latin1(d.as_slice()) } else { d };
                (self.property, Some((self.type_, bytes)))
            },
        };
        Answer {
            client: self.client,
            requestor: self.requestor,
            selection: self.selection,
            target: self.target,
            time: self.time,
            property,
            value,
        }
    }

    /// Refuses a conversion that is dropped unrun.
    pub fn refuse(self) -> (a: Answer)
        ensures
            self.answered_by(a, 0),
            a.value is None,
    {
        self.finish(None)
    }
}

/// One piece of work for the Wayland side.
pub enum Job {
    /// Publish `data` for `sel` as a fresh data-control source, or with `None`
    /// withdraw the one we published.
    Publish(Sel, Option<Vec<u8>>),
    /// Pipe the current value of `sel` out of the Wayland app that owns it, as
    /// `mime`, and answer the X client waiting on it.
    Receive {
        sel: Sel,
        mime: String,
        /// The ownership generation `mime` was resolved against. If the
        /// compositor has replaced the owner since, the job is refused rather
        /// than asked of a successor that may not offer this mime at all.
        generation: u64,
        /// When the X client asked, so that the time this job spent queued
        /// counts against the transfer's total budget rather than extending it.
        since: u64,
        conversion: PendingConversion,
    },
    /// Offers the compositor has replaced, which the protocol asks us to destroy.
    Destroy(Vec<DataOffer>),
}

/// A job, with what it carries as sequences.
#[verifier::ext_equal]
pub enum JobView {
    Publish(Sel, Option<Seq<u8>>),
    Receive { sel: Sel, mime: Seq<char>, generation: u64, since: u64, conversion: PendingConversion },
    Destroy(Seq<DataOffer>),
}

/// The bytes of an optional value.
pub open spec fn data_view(d: Option<Vec<u8>>) -> Option<Seq<u8>> {
    match d {
        Some(v) => Some(v@),
        None => None,
    }
}

impl View for Job {
    type V = JobView;

    open spec fn view(&self) -> JobView {
        match *self {
            Job::Publish(sel, data) => JobView::Publish(sel, data_view(data)),
            Job::Receive { sel, mime, generation, since, conversion } => JobView::Receive {
                sel,
                mime: mime@,
                generation,
                since,
                conversion,
            },
            Job::Destroy(v) => JobView::Destroy(v@),
        }
    }
}

/// What each of the jobs is.
pub open spec fn job_views(s: Seq<Job>) -> Seq<JobView> {
    s.map_values(|j: Job| j@)
}

/// Jobs that have waited out their time. Only a conversion carries a deadline; a
/// publication or a destroy is still worth running whenever it is got to.
pub open spec fn expired(now: u64) -> spec_fn(JobView) -> bool {
    |j: JobView| j matches JobView::Receive { since, .. } && now - since >= QUEUE_TIMEOUT
}

pub open spec fn unexpired(now: u64) -> spec_fn(JobView) -> bool {
    |j: JobView| !expired(now)(j)
}

/// The queue itself: see the module documentation.
pub struct Jobs {
    queue: Vec<Job>,
    /// Whether the Wayland side is there to run them. With no compositor it never
    /// starts and nothing would ever drain the queue, so a job posted then is
    /// refused on the spot instead of waiting forever.
    running: bool,
}

/// A queue: the jobs that wait, oldest first, and whether anyone runs them.
#[verifier::ext_equal]
pub struct JobsView {
    pub queue: Seq<JobView>,
    pub running: bool,
}

impl View for Jobs {
    type V = JobsView;

    closed spec fn view(&self) -> JobsView {
        JobsView { queue: job_views(self.queue@), running: self.running }
    }
}

impl JobsView {
    /// The queue without what has waited out its time.
    pub open spec fn swept(self, now: u64) -> JobsView {
        JobsView { queue: list::only(self.queue, unexpired(now)), ..self }
    }

    /// Whether a job posted now is taken.
    pub open spec fn takes(self, now: u64) -> bool {
        self.running && self.swept(now).queue.len() < MAX_JOBS
    }

    /// The queue after a job is posted.
    pub open spec fn posted(self, job: JobView, now: u64) -> JobsView {
        if !self.running {
            self
        } else if self.takes(now) {
            JobsView { queue: self.swept(now).queue.push(job), ..self }
        } else {
            self.swept(now)
        }
    }

    /// What posting a job leaves to be dropped, and so refused: what has waited out
    /// its time, and the job itself if it is not taken.
    pub open spec fn dropped(self, job: JobView, now: u64) -> Seq<JobView> {
        if !self.running {
            seq![job]
        } else if self.takes(now) {
            list::only(self.queue, expired(now))
        } else {
            list::only(self.queue, expired(now)).push(job)
        }
    }
}

/// Takes out the jobs that have waited longer than [`QUEUE_TIMEOUT`].
fn drain_expired(queue: &mut Vec<Job>, now: u64) -> (out: Vec<Job>)
    ensures
        job_views(out@) == list::only(job_views(old(queue)@), expired(now)),
        job_views(final(queue)@) == list::only(job_views(old(queue)@), unexpired(now)),
{
    let mut marks: Vec<bool> = Vec::new();
    let mut i: usize = 0;
    while i < queue.len()
        invariant
            i <= queue.len(),
            marks@.len() == i,
            forall|j: int| 0 <= j < i ==> #[trigger] marks@[j] == expired(now)(queue@[j]@),
        decreases queue.len() - i,
    {
        let old_enough = match &queue[i] {
            Job::Receive { since, .. } => now.saturating_sub(*since) >= QUEUE_TIMEOUT,
            _ => false,
        };
        marks.push(old_enough);
        i += 1;
    }
    let ghost q0 = queue@;
    let out = list::take_marked(queue, &marks);
    proof {
        list::lemma_kept_is_only(q0, |j: Job| j@, marks@, expired(now));
        assert forall|i: int| 0 <= i < q0.len() implies #[trigger] list::flipped(marks@)[i] == unexpired(now)(
            q0[i]@,
        ) by {
            assert(marks@[i] == expired(now)(q0[i]@));
        }
        list::lemma_kept_is_only(q0, |j: Job| j@, list::flipped(marks@), unexpired(now));
    }
    out
}

impl Default for Jobs {
    fn default() -> (j: Self)
        ensures
            j@ == (JobsView { queue: Seq::empty(), running: false }),
    {
        let j = Jobs { queue: Vec::new(), running: false };
        assert(j@.queue =~= Seq::empty());
        j
    }
}

impl Jobs {
    /// Posts `job`, returning whether it was taken, and what has to be dropped: the
    /// jobs that have waited out their time, and `job` itself if it was refused.
    /// Dropping a conversion is refusing its requestor.
    pub fn post(&mut self, job: Job, now: u64) -> (r: (bool, Vec<Job>))
        ensures
            r.0 == old(self)@.takes(now),
            final(self)@ == old(self)@.posted(job@, now),
            job_views(r.1@) == old(self)@.dropped(job@, now),
    {
        let ghost before = self@;
        if !self.running {
            let mut out: Vec<Job> = Vec::new();
            let ghost jv = job@;
            out.push(job);
            assert(job_views(out@) =~= seq![jv]);
            return (false, out);
        }
        let mut stale = drain_expired(&mut self.queue, now);
        let ghost jv = job@;
        if self.queue.len() >= MAX_JOBS {
            let ghost s0 = stale@;
            stale.push(job);
            assert(job_views(stale@) =~= job_views(s0).push(jv));
            (false, stale)
        } else {
            let ghost q0 = self.queue@;
            self.queue.push(job);
            assert(job_views(self.queue@) =~= job_views(q0).push(jv));
            (true, stale)
        }
    }

    /// Takes out whatever has waited past [`QUEUE_TIMEOUT`], to be refused.
    ///
    /// Called on every `ConvertSelection`, because a client blocked on its own
    /// conversion issues no further requests: with only `post` sweeping, a lone
    /// client waiting on a wedged Wayland side would never be answered by anyone.
    pub fn sweep(&mut self, now: u64) -> (out: Vec<Job>)
        ensures
            final(self)@ == old(self)@.swept(now),
            job_views(out@) == list::only(old(self)@.queue, expired(now)),
    {
        drain_expired(&mut self.queue, now)
    }

    /// Whether the Wayland side is there to run jobs at all.
    pub fn running(&self) -> (b: bool)
        ensures
            b == self@.running,
    {
        self.running
    }

    /// Whether anything is posted, so that the Wayland side is to be woken.
    pub fn is_waiting(&self) -> (b: bool)
        ensures
            b == (self@.queue.len() > 0),
    {
        self.queue.len() > 0
    }

    /// Takes everything posted so far, in the order it was posted.
    pub fn take(&mut self) -> (out: Vec<Job>)
        ensures
            job_views(out@) == old(self)@.queue,
            final(self)@ == (JobsView { queue: Seq::empty(), ..old(self)@ }),
    {
        let mut out: Vec<Job> = Vec::new();
        out.append(&mut self.queue);
        assert(self@.queue =~= Seq::empty());
        out
    }

    /// Announces that the Wayland side is (or is no longer) draining. On the way
    /// out, whatever is still queued is handed back to be dropped.
    pub fn set_running(&mut self, running: bool) -> (out: Vec<Job>)
        ensures
            running ==> out@.len() == 0 && final(self)@ == (JobsView { running, ..old(self)@ }),
            !running ==> job_views(out@) == old(self)@.queue && final(self)@ == (JobsView {
                queue: Seq::empty(),
                running,
            }),
    {
        self.running = running;
        if running {
            Vec::new()
        } else {
            self.take()
        }
    }

    /// The publications posted so far: the selection and the value's length, or
    /// `None` for a withdrawal.
    pub fn publishes(&self) -> (v: Vec<(Sel, Option<usize>)>)
        ensures
            v@ == publications(self@.queue),
    {
        let ghost q = self@.queue;
        let mut v: Vec<(Sel, Option<usize>)> = Vec::new();
        let mut i: usize = 0;
        assert(q.take(0) =~= Seq::empty());
        while i < self.queue.len()
            invariant
                i <= self.queue.len(),
                q == self@.queue,
                v@ == publications(q.take(i as int)),
            decreases self.queue.len() - i,
        {
            assert(q.take(i as int + 1).drop_last() =~= q.take(i as int));
            assert(q[i as int] == self.queue@[i as int]@);
            match &self.queue[i] {
                Job::Publish(sel, data) => {
                    let n: Option<usize> = match data {
                        Some(d) => Some(d.len()),
                        None => None,
                    };
                    v.push((*sel, n));
                },
                _ => {},
            }
            i += 1;
        }
        assert(q.take(i as int) =~= q);
        v
    }
}

/// The publications among the jobs.
pub open spec fn publications(q: Seq<JobView>) -> Seq<(Sel, Option<usize>)>
    decreases q.len(),
{
    if q.len() == 0 {
        Seq::empty()
    } else {
        let rest = publications(q.drop_last());
        match q.last() {
            JobView::Publish(sel, data) => rest.push(
                (
                    sel,
                    match data {
                        Some(d) => Some(d.len() as usize),
                        None => None,
                    },
                ),
            ),
            _ => rest,
        }
    }
}

/// The queue never grows past its limit.
pub proof fn law_queue_is_bounded(q: JobsView, job: JobView, now: u64)
    requires
        q.queue.len() <= MAX_JOBS,
    ensures
        q.posted(job, now).queue.len() <= MAX_JOBS,
{
    list::lemma_only_holds(q.queue, unexpired(now));
}

/// No job is lost: one that was queued, or is posted, is afterwards queued or handed
/// back to be dropped.
pub proof fn law_every_job_is_accounted_for(q: JobsView, job: JobView, now: u64, j: JobView)
    requires
        q.queue.contains(j) || j == job,
    ensures
        q.posted(job, now).queue.contains(j) || q.dropped(job, now).contains(j),
{
    list::lemma_only_holds(q.queue, unexpired(now));
    list::lemma_only_holds(q.queue, expired(now));
    let kept = q.swept(now).queue;
    let gone = list::only(q.queue, expired(now));
    if !q.running {
        assert(q.dropped(job, now)[0] == job);
    } else if q.takes(now) {
        assert(kept.push(job)[kept.len() as int] == job);
        if kept.contains(j) {
            let i = kept.index_of(j);
            assert(kept.push(job)[i] == j);
        }
    } else {
        assert(gone.push(job)[gone.len() as int] == job);
        if gone.contains(j) {
            let i = gone.index_of(j);
            assert(gone.push(job)[i] == j);
        }
    }
}

/// A sweep takes out conversions only.
pub proof fn law_only_conversions_are_swept(q: JobsView, now: u64, j: JobView)
    requires
        q.queue.contains(j),
        !(j is Receive),
    ensures
        q.swept(now).queue.contains(j),
        !list::only(q.queue, expired(now)).contains(j),
{
    list::lemma_only_holds(q.queue, unexpired(now));
    list::lemma_only_holds(q.queue, expired(now));
}

/// After a sweep no conversion in the queue has waited out its time.
pub proof fn law_swept_queue_has_no_stale_conversion(q: JobsView, now: u64, i: int)
    requires
        0 <= i < q.swept(now).queue.len(),
    ensures
        q.swept(now).queue[i] matches JobView::Receive { since, .. } ==> now - since < 30_000,
{
    list::lemma_only_elements(q.queue, unexpired(now));
}

/// A conversion is answered to the client that asked, by what it asked with; the property
/// is named where there is a value, and none where there is not.
pub proof fn law_conversions_are_answered_to_who_asked(c: PendingConversion, data: Option<Vec<u8>>, a: Answer)
    requires
        call_ensures(PendingConversion::finish, (c, data), a),
    ensures
        a.client == c.client && a.requestor == c.requestor && a.selection == c.selection && a.target == c.target && a.time
            == c.time,
        data is Some ==> a.property == c.property && (a.value matches Some((t, _)) && t == c.type_),
        data is None ==> a.property == 0 && a.value is None,
        !c.latin1 ==> (data matches Some(d) ==> (a.value matches Some((_, bytes)) && bytes@ == d@)),
{
}

} // verus!
