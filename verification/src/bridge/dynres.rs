//! Resolution changes requested by an X client, on their way to the compositor
//! (`-dynres`).
//!
//! A RandR client reconfigures a CRTC from an X connection, but only the Wayland side
//! may touch the objects that carry the change to the compositor. So the X side parks
//! its request here, wakes the Wayland side, and waits until that reports how the
//! compositor answered, exactly as `RRSetCrtcConfig` blocks in Xorg while the driver
//! mode-sets. The reply the client gets is therefore truthful, and the RandR model
//! never says something the compositor did not do: the change reaches the model the
//! ordinary way, as an output change, before the X side is woken.
//!
//! One request is handled at a time: RealVNC drives resizes from a single connection,
//! and a compositor configuration is single-use anyway.

use vstd::prelude::*;

verus! {

/// A mode change for one Wayland output, in the screen's (transformed) physical
/// pixels, i.e. what the X client asked for.
#[derive(Clone, Copy, PartialEq, Eq, Structural, Debug)]
pub struct ModeRequest {
    pub id: u64,
    pub wl_name: u32,
    pub width: u16,
    pub height: u16,
}

/// Why a resolution change did not happen. `T` is a text.
#[derive(PartialEq, Eq, Debug)]
pub enum Reason<T> {
    Busy,
    TimedOut,
    NoManager,
    NoOutput,
    /// No head is behind the output; which heads there are is said.
    NoHead(T),
    NoSerial,
    Unanswered,
    Cancelling,
    Rejected,
    OutputGone,
    Withdrawn,
    Lost,
}

impl View for Reason<String> {
    type V = Reason<Seq<char>>;

    open spec fn view(&self) -> Reason<Seq<char>> {
        match *self {
            Reason::Busy => Reason::Busy,
            Reason::TimedOut => Reason::TimedOut,
            Reason::NoManager => Reason::NoManager,
            Reason::NoOutput => Reason::NoOutput,
            Reason::NoHead(t) => Reason::NoHead(t@),
            Reason::NoSerial => Reason::NoSerial,
            Reason::Unanswered => Reason::Unanswered,
            Reason::Cancelling => Reason::Cancelling,
            Reason::Rejected => Reason::Rejected,
            Reason::OutputGone => Reason::OutputGone,
            Reason::Withdrawn => Reason::Withdrawn,
            Reason::Lost => Reason::Lost,
        }
    }
}

impl Reason<Seq<char>> {
    /// What the waiter is told.
    pub open spec fn text(self) -> Seq<char> {
        match self {
            Reason::Busy => "another resolution change is still in progress"@,
            Reason::TimedOut => "the compositor did not answer in time"@,
            Reason::NoManager => "the compositor has no zwlr_output_manager_v1"@,
            Reason::NoOutput => "the output no longer exists"@,
            Reason::NoHead(t) => t,
            Reason::NoSerial => "the output manager never sent a serial"@,
            Reason::Unanswered => "the compositor did not answer the configuration"@,
            Reason::Cancelling => "the compositor kept cancelling the configuration"@,
            Reason::Rejected => "the compositor rejected every way of setting the mode"@,
            Reason::OutputGone => "the output went away"@,
            Reason::Withdrawn => "the compositor withdrew the output manager"@,
            Reason::Lost => "the wayland connection was lost"@,
        }
    }
}

impl Reason<String> {
    /// What the waiter is told.
    pub fn message(&self) -> (s: &str)
        ensures
            s@ == self@.text(),
    {
        match self {
            Reason::Busy => "another resolution change is still in progress",
            Reason::TimedOut => "the compositor did not answer in time",
            Reason::NoManager => "the compositor has no zwlr_output_manager_v1",
            Reason::NoOutput => "the output no longer exists",
            Reason::NoHead(t) => t.as_str(),
            Reason::NoSerial => "the output manager never sent a serial",
            Reason::Unanswered => "the compositor did not answer the configuration",
            Reason::Cancelling => "the compositor kept cancelling the configuration",
            Reason::Rejected => "the compositor rejected every way of setting the mode",
            Reason::OutputGone => "the output went away",
            Reason::Withdrawn => "the compositor withdrew the output manager",
            Reason::Lost => "the wayland connection was lost",
        }
    }
}

/// The outcome of a request, with the text of its reason.
pub open spec fn told(r: Result<(), Reason<String>>) -> Result<(), Reason<Seq<char>>> {
    match r {
        Ok(()) => Ok(()),
        Err(reason) => Err(reason@),
    }
}

/// What became of an attempt to park a request.
#[derive(PartialEq, Eq, Debug)]
pub enum Turn {
    /// It is parked, under this number: the Wayland side is to be woken.
    Parked(u64),
    /// Another one is in progress.
    Wait,
    /// Another one is in progress, and there is no more time to wait for it.
    GivenUp(Reason<String>),
}

/// What there is to be told to the waiter of a request.
#[derive(PartialEq, Eq, Debug)]
pub enum Outcome {
    Answered(Result<(), Reason<String>>),
    Wait,
}

/// The mailbox.
#[derive(Debug)]
pub struct DynRes {
    pub next_id: u64,
    /// Parked by the X side, not yet picked up by the Wayland side.
    pub queued: Option<ModeRequest>,
    /// Picked up, and not yet completed.
    pub in_flight: Option<u64>,
    /// The last completed request, for its waiter.
    pub done: Option<(u64, Result<(), Reason<String>>)>,
    /// Whether the Wayland side has an output manager to carry changes over.
    pub available: bool,
}

#[verifier::ext_equal]
pub struct DynResView {
    pub next_id: u64,
    pub queued: Option<ModeRequest>,
    pub in_flight: Option<u64>,
    pub done: Option<(u64, Result<(), Reason<Seq<char>>>)>,
    pub available: bool,
}

impl View for DynRes {
    type V = DynResView;

    open spec fn view(&self) -> DynResView {
        DynResView {
            next_id: self.next_id,
            queued: self.queued,
            in_flight: self.in_flight,
            done: match self.done {
                Some((id, result)) => Some((id, told(result))),
                None => None,
            },
            available: self.available,
        }
    }
}

impl Default for DynRes {
    fn default() -> (d: Self)
        ensures
            d@ == DynResView::initial(),
    {
        DynRes { next_id: 0, queued: None, in_flight: None, done: None, available: false }
    }
}

/// The number of the next request.
pub open spec fn next_number(n: u64) -> u64 {
    if n == u64::MAX {
        0
    } else {
        (n + 1) as u64
    }
}

impl DynResView {
    /// Nothing is parked, and there is no output manager.
    pub open spec fn initial() -> DynResView {
        DynResView { next_id: 0, queued: None, in_flight: None, done: None, available: false }
    }

    /// A request is parked or being carried out.
    pub open spec fn busy(self) -> bool {
        self.queued is Some || self.in_flight is Some
    }

    /// With a request parked.
    pub open spec fn parked(self, wl_name: u32, width: u16, height: u16) -> DynResView {
        DynResView {
            next_id: next_number(self.next_id),
            queued: Some(ModeRequest { id: next_number(self.next_id), wl_name, width, height }),
            done: None,
            ..self
        }
    }

    /// With the parked request, if there is one and none is in flight, in flight.
    pub open spec fn taken(self) -> DynResView {
        match self.queued {
            Some(req) if self.in_flight is None => DynResView { queued: None, in_flight: Some(req.id), ..self },
            _ => self,
        }
    }

    /// With the outcome of a request.
    pub open spec fn completed(self, id: u64, result: Result<(), Reason<Seq<char>>>) -> DynResView {
        DynResView {
            in_flight: if self.in_flight == Some(id) {
                None
            } else {
                self.in_flight
            },
            done: Some((id, result)),
            ..self
        }
    }
}

impl DynRes {
    pub fn set_available(&mut self, available: bool)
        ensures
            final(self)@ == (DynResView { available, ..old(self)@ }),
    {
        self.available = available;
    }

    /// Whether a request stands any chance: the Wayland side has bound an output
    /// manager. Checked by the X side so a request never waits on a side that will not
    /// answer.
    pub fn available(&self) -> (b: bool)
        ensures
            b == self.available,
    {
        self.available
    }

    /// Parks a request to drive `wl_name` at `width`x`height`. One at a time: a second
    /// client asking concurrently waits its turn, until it is `late`.
    pub fn park(&mut self, wl_name: u32, width: u16, height: u16, late: bool) -> (t: Turn)
        ensures
            final(self)@ == (if old(self)@.busy() {
                old(self)@
            } else {
                old(self)@.parked(wl_name, width, height)
            }),
            t == (if !old(self)@.busy() {
                Turn::Parked(next_number(old(self)@.next_id))
            } else if late {
                Turn::GivenUp(Reason::Busy)
            } else {
                Turn::Wait
            }),
    {
        if self.queued.is_some() || self.in_flight.is_some() {
            return if late {
                Turn::GivenUp(Reason::Busy)
            } else {
                Turn::Wait
            };
        }
        let id: u64 = self.next_id.wrapping_add(1);
        self.next_id = id;
        self.queued = Some(ModeRequest { id, wl_name, width, height });
        self.done = None;
        Turn::Parked(id)
    }

    /// What there is to be told to the waiter of request `id`. A waiter that is `late`
    /// is told that nothing answered: if its request is still parked, nobody will ever
    /// act on it; if in flight the Wayland side finishes on its own and the result is
    /// dropped.
    pub fn outcome(&mut self, id: u64, late: bool) -> (o: Outcome)
        ensures
            match old(self)@.done {
                Some((done_id, result)) if done_id == id => {
                    &&& o matches Outcome::Answered(r) && told(r) == result
                    &&& final(self)@ == (DynResView { done: None, ..old(self)@ })
                },
                _ => if late {
                    &&& o == Outcome::Answered(Err(Reason::TimedOut))
                    &&& final(self)@ == (DynResView {
                        queued: match old(self)@.queued {
                            Some(r) if r.id == id => None,
                            q => q,
                        },
                        ..old(self)@
                    })
                } else {
                    o == Outcome::Wait && final(self)@ == old(self)@
                },
            },
    {
        let mine = match &self.done {
            Some((done_id, _)) => *done_id == id,
            None => false,
        };
        if mine {
            if let Some((_, result)) = self.done.take() {
                return Outcome::Answered(result);
            }
        }
        if !late {
            return Outcome::Wait;
        }
        if let Some(r) = self.queued {
            if r.id == id {
                self.queued = None;
            }
        }
        Outcome::Answered(Err(Reason::TimedOut))
    }

    /// Takes the parked request, if any, marking it in flight (Wayland side).
    pub fn take(&mut self) -> (r: Option<ModeRequest>)
        ensures
            final(self)@ == old(self)@.taken(),
            r == (if old(self)@.in_flight is Some {
                None
            } else {
                old(self)@.queued
            }),
    {
        if self.in_flight.is_some() {
            return None;
        }
        match self.queued {
            Some(req) => {
                self.queued = None;
                self.in_flight = Some(req.id);
                Some(req)
            },
            None => None,
        }
    }

    /// Reports the outcome of the in-flight request (Wayland side); its waiter is to be
    /// woken.
    pub fn complete(&mut self, id: u64, result: Result<(), Reason<String>>)
        ensures
            final(self)@ == old(self)@.completed(id, told(result)),
    {
        if let Some(running) = self.in_flight {
            if running == id {
                self.in_flight = None;
            }
        }
        self.done = Some((id, result));
    }
}

/// The answer to a request reaches its own waiter: what is parked, taken and completed
/// is what the waiter is told, and the next request can be parked.
pub proof fn law_answer_reaches_its_waiter(d: DynResView, wl_name: u32, width: u16, height: u16, result: Result<(), Reason<Seq<char>>>)
    requires
        !d.busy(),
    ensures
        ({
            let p = d.parked(wl_name, width, height);
            let id = next_number(d.next_id);
            let c = p.taken().completed(id, result);
            &&& p.queued == Some(ModeRequest { id, wl_name, width, height })
            &&& p.taken().in_flight == Some(id)
            &&& c.done == Some((id, result))
            &&& !c.busy()
        }),
{
}

/// The outcome of an earlier request does not reach the waiter of a later one.
pub proof fn law_late_answer_is_not_taken_for_another(d: DynResView, id: u64, other: u64, result: Result<(), Reason<Seq<char>>>)
    requires
        id != other,
        d.in_flight == Some(other),
    ensures
        d.completed(id, result).in_flight == Some(other),
        d.completed(id, result).done matches Some((done_id, _)) && done_id != other,
{
}

/// A request that is parked is the one that was made, under a number of its own, and what
/// became of an earlier one is forgotten.
pub proof fn law_parked_request_is_as_made(d: DynResView, wl_name: u32, width: u16, height: u16)
    ensures
        ({
            let p = d.parked(wl_name, width, height);
            &&& p.queued matches Some(r) && r.wl_name == wl_name && r.width == width && r.height == height && r.id
                == p.next_id && r.id != d.next_id
            &&& p.done is None
            &&& p.busy()
            &&& p.available == d.available
        }),
{
}

/// A parked request is carried out once none is in flight, and then it is in flight itself,
/// until its own outcome is known.
pub proof fn law_requests_are_in_flight_until_answered(
    d: DynResView,
    req: ModeRequest,
    result: Result<(), Reason<Seq<char>>>,
    other: u64,
)
    requires
        d.queued == Some(req),
        other != req.id,
    ensures
        d.in_flight is None ==> d.taken().in_flight == Some(req.id) && d.taken().queued is None,
        d.in_flight is Some ==> d.taken() == d,
        d.in_flight is None ==> d.taken().completed(other, result).in_flight == Some(req.id),
        d.in_flight is None ==> d.taken().completed(req.id, result).in_flight is None && d.taken().completed(
            req.id,
            result,
        ).done == Some((req.id, result)),
{
}

} // verus!
