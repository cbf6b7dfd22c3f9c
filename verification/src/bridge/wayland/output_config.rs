//! Carrying resolution changes to the compositor (`zwlr-output-management-v1`), for
//! `-dynres`.
//!
//! Mirrors the compositor's heads and their modes, and turns the mode change an X
//! client asked for (parked in [`DynRes`](crate::bridge::dynres::DynRes)) into an
//! output configuration, one at a time.
//!
//! Two protocol rules shape the code. A configuration must mention *every* head, and
//! leaving one out is a protocol error, so applying a change to one output means
//! re-enabling all the others unchanged. And a configuration object is single-use:
//! exactly one of `succeeded`, `failed` and `cancelled` comes back, then it must be
//! destroyed.
//!
//! Nothing here updates the RandR model directly. The compositor answers by changing
//! the output, which reaches the screen like any other output change. A request only
//! counts as done once that has landed, so the X client that is waiting for the reply
//! sees the new state when it wakes, and a compositor that says `succeeded` and then
//! changes nothing is reported as a failure rather than believed.
//!
//! Heads and modes are known by the numbers of their objects, configurations by
//! numbers of our own. Times are in milliseconds.

use crate::bridge::dynres::{DynRes, DynResView, ModeRequest, Reason};
use crate::bridge::wayland::output;
use crate::bridge::wayland::output::{OutputAcc, Outputs};
use crate::bridge::x11::randr;
use crate::bridge::x11::randr::{Screen, ScreenView};
use crate::bridge::x11::targets;
use crate::util::list;
use vstd::prelude::*;
use vstd::string::*;

verus! {

/// How long to wait for the first `done` (the serial a configuration needs) after a
/// request arrives.
pub const SERIAL_TIMEOUT: u64 = 2000;

/// How long to wait for the compositor's `succeeded`, `failed` or `cancelled`.
pub const APPLY_TIMEOUT: u64 = 5000;

/// After `succeeded`, how long to wait for the output to actually report the requested
/// size before concluding the compositor accepted the configuration and did nothing
/// with it.
pub const SETTLE_TIMEOUT: u64 = 1500;

/// How long to wait for a fresh serial after `cancelled`.
pub const CANCEL_TIMEOUT: u64 = 2000;

/// A cancel means our serial went stale (an output changed under us), which a retry
/// fixes; a compositor that keeps cancelling would otherwise loop forever.
pub const MAX_CANCELLED: u8 = 3;

/// The refresh to ask for when the output's own is unknown.
pub const DEFAULT_REFRESH_MHZ: i32 = 60_000;

/// One of a head's advertised modes.
#[derive(Clone, Copy, PartialEq, Eq, Structural, Debug)]
pub struct Mode {
    pub id: u32,
    pub width: i32,
    pub height: i32,
    /// In mHz, 0 if not advertised.
    pub refresh: i32,
    pub preferred: bool,
}

/// One output as the output manager sees it. Matched to our output by name, which is
/// the connector name on both sides.
pub struct Head {
    pub id: u32,
    pub name: Vec<u8>,
    pub enabled: bool,
    pub modes: Vec<Mode>,
}

#[verifier::ext_equal]
pub struct HeadView {
    pub id: u32,
    pub name: Seq<u8>,
    pub enabled: bool,
    pub modes: Seq<Mode>,
}

impl View for Head {
    type V = HeadView;

    open spec fn view(&self) -> HeadView {
        HeadView { id: self.id, name: self.name@, enabled: self.enabled, modes: self.modes@ }
    }
}

/// What the compositor says of a head.
pub enum HeadEvent {
    Name(Vec<u8>),
    Enabled(bool),
    Mode(u32),
}

/// What the compositor says of a mode.
#[derive(Clone, Copy, PartialEq, Eq, Structural, Debug)]
pub enum ModeEvent {
    Size { width: i32, height: i32 },
    Refresh(i32),
    Preferred,
}

/// The compositor's answer to a configuration.
#[derive(Clone, Copy, PartialEq, Eq, Structural, Debug)]
pub enum Verdict {
    Succeeded,
    Failed,
    Cancelled,
}

/// One way of asking for a size.
#[derive(Clone, Copy, PartialEq, Eq, Structural, Debug)]
pub enum Attempt {
    /// An advertised mode of exactly that size (the one to use on real hardware, where a
    /// custom mode may not be possible).
    Advertised,
    /// A custom mode with this refresh. Compositors disagree on what they want here:
    /// wlroots' nested backends reject any refresh but 0, while niri silently ignores a
    /// custom mode with refresh 0. So both are tried, whichever worked last time first.
    Custom { refresh: i32 },
}

#[derive(Clone, Copy, PartialEq, Eq, Structural, Debug)]
pub enum Phase {
    /// Waiting for a serial to create the configuration against.
    NeedSerial,
    /// Configuration applied; waiting for its answer.
    Applying,
    /// `succeeded`; waiting for the output to report the new size.
    Settling,
    /// `cancelled`; waiting for a newer serial to retry with.
    Cancelled,
}

/// The request being carried out.
pub struct Active {
    pub req: ModeRequest,
    pub head: u32,
    /// The mode size in the panel's own orientation: the request is in screen pixels, and
    /// a rotated output's mode is the untransformed size.
    pub mode_w: i32,
    pub mode_h: i32,
    /// What is left to try, in order.
    pub attempts: Vec<Attempt>,
    pub current: Option<Attempt>,
    pub phase: Phase,
    pub deadline: u64,
    pub config: Option<u64>,
    pub serial_used: u32,
    pub cancelled: u8,
}

#[verifier::ext_equal]
pub struct ActiveView {
    pub req: ModeRequest,
    pub head: u32,
    pub mode_w: i32,
    pub mode_h: i32,
    pub attempts: Seq<Attempt>,
    pub current: Option<Attempt>,
    pub phase: Phase,
    pub deadline: u64,
    pub config: Option<u64>,
    pub serial_used: u32,
    pub cancelled: u8,
}

impl View for Active {
    type V = ActiveView;

    open spec fn view(&self) -> ActiveView {
        ActiveView {
            req: self.req,
            head: self.head,
            mode_w: self.mode_w,
            mode_h: self.mode_h,
            attempts: self.attempts@,
            current: self.current,
            phase: self.phase,
            deadline: self.deadline,
            config: self.config,
            serial_used: self.serial_used,
            cancelled: self.cancelled,
        }
    }
}

/// The output manager.
pub struct OutputConfig {
    /// From the manager's `done`; `None` until the first one, which is also when the head
    /// list is first complete enough to configure.
    pub serial: Option<u32>,
    pub heads: Vec<Head>,
    pub active: Option<Active>,
    /// Whether a custom mode with refresh 0 is the variant to try first; flips to
    /// whatever worked last.
    pub zero_refresh_first: bool,
    /// The number of the next configuration.
    pub next_config: u64,
}

#[verifier::ext_equal]
pub struct OutputConfigView {
    pub serial: Option<u32>,
    pub heads: Seq<HeadView>,
    pub active: Option<ActiveView>,
    pub zero_refresh_first: bool,
    pub next_config: u64,
}

/// Heads as they are seen.
pub open spec fn head_views(s: Seq<Head>) -> Seq<HeadView> {
    Seq::new(s.len(), |i: int| s[i]@)
}

impl View for OutputConfig {
    type V = OutputConfigView;

    open spec fn view(&self) -> OutputConfigView {
        OutputConfigView {
            serial: self.serial,
            heads: head_views(self.heads@),
            active: match self.active {
                Some(a) => Some(a@),
                None => None,
            },
            zero_refresh_first: self.zero_refresh_first,
            next_config: self.next_config,
        }
    }
}

/// What `format!` makes of a text with `{:?}`: the text in double quotes, with the escapes
/// that a string literal would need.
pub uninterp spec fn quoted(text: Seq<char>) -> Seq<char>;

/// The `Debug` form of a `str`, which the contract gives its name.
#[verifier::external_body]
fn debug_text(text: &str) -> (s: String)
    ensures
        s@ == quoted(text@),
{
    format!("{text:?}")
}

/// The names of heads, with commas between them.
pub open spec fn names_joined(names: Seq<Seq<char>>) -> Seq<char>
    decreases names.len(),
{
    if names.len() == 0 {
        Seq::empty()
    } else if names.len() == 1 {
        names[0]
    } else {
        names_joined(names.drop_last()) + ", "@ + names.last()
    }
}

/// What is said where no head is behind an output: its name in quotes, and the heads that
/// there are.
pub open spec fn no_head_text(name: Seq<char>, heads: Seq<Seq<char>>) -> Seq<char> {
    "no zwlr_output_head_v1 named "@ + name + " (heads: "@ + names_joined(heads) + ")"@
}

/// The names of the heads, as text.
pub open spec fn head_names(heads: Seq<HeadView>) -> Seq<Seq<char>> {
    heads.map_values(|h: HeadView| targets::utf8_lossy(h.name))
}

/// What is said where no head is behind an output, given its name in quotes.
pub fn no_head_message(name: &str, heads: &Vec<String>) -> (text: String)
    ensures
        text@ == no_head_text(name@, list::texts(heads@)),
{
    let mut text: String = String::from_str("no zwlr_output_head_v1 named ");
    text.append(name);
    text.append(" (heads: ");
    let ghost start = text@;
    let ghost names = list::texts(heads@);
    let mut i: usize = 0;
    assert(text@ =~= start + names_joined(names.take(0)));
    while i < heads.len()
        invariant
            i <= heads.len(),
            names == list::texts(heads@),
            text@ == start + names_joined(names.take(i as int)),
        decreases heads.len() - i,
    {
        if i > 0 {
            text.append(", ");
        }
        text.append(heads[i].as_str());
        proof {
            let more = names.take(i as int + 1);
            assert(more.drop_last() =~= names.take(i as int));
            assert(more.last() == names[i as int]);
            if i == 0 {
                assert(more[0] == names[0]);
                assert(names_joined(names.take(0)) =~= Seq::empty());
            }
            assert(text@ =~= start + names_joined(more));
        }
        i += 1;
    }
    assert(names.take(i as int) =~= names);
    text.append(")");
    text
}

/// What a configuration says of one head.
#[derive(Clone, Copy, PartialEq, Eq, Structural, Debug)]
pub enum HeadSetting {
    /// Not enabled, and staying so.
    Disable,
    /// Enabled with no property changes, which keeps its current state.
    Keep,
    /// Enabled with this mode.
    Mode(u32),
    /// Enabled with a custom mode.
    Custom { width: i32, height: i32, refresh: i32 },
}

/// A configuration to be created against a serial, filled in and applied.
pub struct Configuration {
    pub number: u64,
    pub serial: u32,
    pub heads: Vec<(u32, HeadSetting)>,
}

#[verifier::ext_equal]
pub struct ConfigurationView {
    pub number: u64,
    pub serial: u32,
    pub heads: Seq<(u32, HeadSetting)>,
}

impl View for Configuration {
    type V = ConfigurationView;

    open spec fn view(&self) -> ConfigurationView {
        ConfigurationView { number: self.number, serial: self.serial, heads: self.heads@ }
    }
}

/// What is to be done on the objects: a configuration to apply, and a configuration
/// without an answer to destroy.
pub struct Work {
    pub apply: Option<Configuration>,
    pub destroy: Option<u64>,
}

/// How a step leaves things.
#[verifier::ext_equal]
pub struct Run {
    pub cfg: OutputConfigView,
    pub dynres: DynResView,
    pub apply: Option<ConfigurationView>,
    pub destroy: Option<u64>,
}

/// Some time from now.
pub open spec fn later(now: u64, by: u64) -> u64 {
    if now + by > u64::MAX {
        u64::MAX
    } else {
        (now + by) as u64
    }
}

/// The number after.
pub open spec fn next_number(n: u64) -> u64 {
    if n == u64::MAX {
        0
    } else {
        (n + 1) as u64
    }
}

pub open spec fn head_is(id: u32) -> spec_fn(HeadView) -> bool {
    |h: HeadView| h.id == id
}

pub open spec fn called(name: Seq<u8>) -> spec_fn(HeadView) -> bool {
    |h: HeadView| h.name == name
}

pub open spec fn mode_is(id: u32) -> spec_fn(Mode) -> bool {
    |m: Mode| m.id == id
}

pub open spec fn mode_is_not(id: u32) -> spec_fn(Mode) -> bool {
    |m: Mode| m.id != id
}

/// The heads owning a mode.
pub open spec fn owns(mode: u32) -> spec_fn(HeadView) -> bool {
    |h: HeadView| list::first_index(h.modes, mode_is(mode)) is Some
}

/// Modes of exactly that size.
pub open spec fn of_size(width: i32, height: i32) -> spec_fn(Mode) -> bool {
    |m: Mode| m.width == width && m.height == height
}

/// A mode is as good as another: preferred, else as fast.
pub open spec fn as_good(a: Mode, b: Mode) -> bool {
    if a.preferred != b.preferred {
        a.preferred
    } else {
        a.refresh >= b.refresh
    }
}

/// The preferred one of the modes, else the fastest; the last of equals.
pub open spec fn best(modes: Seq<Mode>) -> Option<Mode>
    decreases modes.len(),
{
    if modes.len() == 0 {
        None
    } else {
        match best(modes.drop_last()) {
            Some(m) => Some(
                if as_good(modes.last(), m) {
                    modes.last()
                } else {
                    m
                },
            ),
            None => Some(modes.last()),
        }
    }
}

/// The attempts for a size: the advertised mode if there is one, then the custom-mode
/// variants in preference order.
pub open spec fn planned(modes: Seq<Mode>, mode_w: i32, mode_h: i32, refresh: i32, zero_first: bool) -> Seq<Attempt> {
    let advertised = if list::first_index(modes, of_size(mode_w, mode_h)) is Some {
        seq![Attempt::Advertised]
    } else {
        Seq::empty()
    };
    let zero = Attempt::Custom { refresh: 0 };
    let own = Attempt::Custom {
        refresh: if refresh > 0 {
            refresh
        } else {
            DEFAULT_REFRESH_MHZ
        },
    };
    advertised + if zero_first {
        seq![zero, own]
    } else {
        seq![own, zero]
    }
}

impl ActiveView {
    /// What a configuration says of a head.
    pub open spec fn setting(self, h: HeadView, attempt: Attempt) -> HeadSetting {
        if h.id != self.head {
            if h.enabled {
                HeadSetting::Keep
            } else {
                HeadSetting::Disable
            }
        } else {
            match attempt {
                Attempt::Advertised => match best(list::only(h.modes, of_size(self.mode_w, self.mode_h))) {
                    Some(m) => HeadSetting::Mode(m.id),
                    None => HeadSetting::Custom { width: self.mode_w, height: self.mode_h, refresh: 0 },
                },
                Attempt::Custom { refresh } => HeadSetting::Custom {
                    width: self.mode_w,
                    height: self.mode_h,
                    refresh,
                },
            }
        }
    }

    /// What a configuration says of the heads.
    pub open spec fn settings(self, heads: Seq<HeadView>, attempt: Attempt) -> Seq<(u32, HeadSetting)> {
        Seq::new(heads.len(), |i: int| (heads[i].id, self.setting(heads[i], attempt)))
    }

    /// The screen shows the requested size on the output.
    pub open spec fn settled(self, screen: ScreenView) -> bool {
        self.req.wl_name != 0 && (screen.find(randr::mirrors(self.req.wl_name)) matches Some(o) && o.width
            == self.req.width && o.height == self.req.height)
    }
}

impl OutputConfigView {
    /// The compositor has not cancelled too often.
    pub open spec fn valid(self) -> bool {
        self.active matches Some(a) ==> a.cancelled <= MAX_CANCELLED
    }

    /// The head behind the output of that name. An output only reports a name in later
    /// versions; with a single head there is nothing to tell apart, which covers the
    /// headless and nested setups `-dynres` is meant for.
    pub open spec fn head_for(self, name: Seq<u8>) -> Option<int> {
        let by_name = list::first_index(self.heads, called(name));
        if name.len() > 0 && by_name is Some {
            by_name
        } else if self.heads.len() == 1 && (name.len() == 0 || self.heads[0].name.len() == 0) {
            Some(0)
        } else {
            None
        }
    }

    /// With a head changed.
    pub open spec fn with_head(self, i: int, h: HeadView) -> OutputConfigView {
        OutputConfigView { heads: self.heads.update(i, h), ..self }
    }

    /// Nothing happens.
    pub open spec fn idle(self, d: DynResView) -> Run {
        Run { cfg: self, dynres: d, apply: None, destroy: None }
    }

    /// The request has failed.
    pub open spec fn failed(self, d: DynResView, reason: Reason<Seq<char>>) -> Run {
        match self.active {
            Some(a) => Run {
                cfg: OutputConfigView { active: None, ..self },
                dynres: d.completed(a.req.id, Err(reason)),
                apply: None,
                destroy: a.config,
            },
            None => self.idle(d),
        }
    }

    /// The request has been carried out.
    pub open spec fn succeeded(self, d: DynResView) -> Run {
        match self.active {
            Some(a) => Run {
                cfg: OutputConfigView {
                    active: None,
                    zero_refresh_first: match a.current {
                        Some(Attempt::Custom { refresh }) => refresh == 0,
                        _ => self.zero_refresh_first,
                    },
                    ..self
                },
                dynres: d.completed(a.req.id, Ok(())),
                apply: None,
                destroy: a.config,
            },
            None => self.idle(d),
        }
    }

    /// The next attempt is applied, or the request has failed when none is left.
    pub open spec fn applied_next(self, d: DynResView, now: u64) -> Run {
        match (self.active, self.serial) {
            (Some(a), Some(serial)) => if a.attempts.len() == 0 {
                self.failed(d, Reason::Rejected)
            } else {
                let attempt = a.attempts[0];
                Run {
                    cfg: OutputConfigView {
                        active: Some(
                            ActiveView {
                                attempts: a.attempts.skip(1),
                                current: Some(attempt),
                                phase: Phase::Applying,
                                deadline: later(now, APPLY_TIMEOUT),
                                config: Some(self.next_config),
                                serial_used: serial,
                                ..a
                            },
                        ),
                        next_config: next_number(self.next_config),
                        ..self
                    },
                    dynres: d,
                    apply: Some(
                        ConfigurationView {
                            number: self.next_config,
                            serial,
                            heads: a.settings(self.heads, attempt),
                        },
                    ),
                    destroy: a.config,
                }
            },
            _ => self.idle(d),
        }
    }

    /// The request moved along: applied when a serial is there, applied again after a
    /// cancel, given up at its deadline.
    pub open spec fn advanced(self, d: DynResView, screen: ScreenView, now: u64) -> Run {
        match self.active {
            None => self.idle(d),
            Some(a) => match a.phase {
                Phase::NeedSerial => if self.serial is Some {
                    self.applied_next(d, now)
                } else if now >= a.deadline {
                    self.failed(d, Reason::NoSerial)
                } else {
                    self.idle(d)
                },
                Phase::Applying => if now >= a.deadline {
                    self.failed(d, Reason::Unanswered)
                } else {
                    self.idle(d)
                },
                Phase::Settling => if a.settled(screen) {
                    self.succeeded(d)
                } else if now >= a.deadline {
                    self.applied_next(d, now)
                } else {
                    self.idle(d)
                },
                Phase::Cancelled => if self.serial is Some && self.serial != Some(a.serial_used) {
                    self.applied_next(d, now)
                } else if now >= a.deadline {
                    self.failed(d, Reason::Cancelling)
                } else {
                    self.idle(d)
                },
            },
        }
    }

    /// A request resolved against its output and the heads, with its attempts queued.
    pub open spec fn started(self, d: DynResView, req: ModeRequest, acc: Option<OutputAcc>, now: u64) -> Run {
        match acc {
            None => self.idle(d.completed(req.id, Err(Reason::NoOutput))),
            Some(acc) => match self.head_for(acc.name@) {
                None => self.idle(
                    d.completed(
                        req.id,
                        Err(
                            Reason::NoHead(
                                no_head_text(quoted(targets::utf8_lossy(acc.name@)), head_names(self.heads)),
                            ),
                        ),
                    ),
                ),
                Some(i) => {
                    let turned = acc.transform.is_quarter_turn();
                    let mode_w = if turned {
                        req.height as i32
                    } else {
                        req.width as i32
                    };
                    let mode_h = if turned {
                        req.width as i32
                    } else {
                        req.height as i32
                    };
                    let h = self.heads[i];
                    OutputConfigView {
                        active: Some(
                            ActiveView {
                                req,
                                head: h.id,
                                mode_w,
                                mode_h,
                                attempts: planned(h.modes, mode_w, mode_h, acc.refresh_mhz, self.zero_refresh_first),
                                current: None,
                                phase: Phase::NeedSerial,
                                deadline: later(now, SERIAL_TIMEOUT),
                                config: None,
                                serial_used: 0,
                                cancelled: 0,
                            },
                        ),
                        ..self
                    }.idle(d)
                },
            },
        }
    }

    /// The parked request picked up, and the active one moved along.
    pub open spec fn ticked(self, d: DynResView, outputs: Seq<(u32, OutputAcc)>, screen: ScreenView, now: u64) -> Run {
        match d.queued {
            Some(req) if self.active is None && d.in_flight is None => {
                let run = self.started(d.taken(), req, output::heard_of(outputs, req.wl_name), now);
                run.cfg.advanced(run.dynres, screen, now)
            },
            _ => self.advanced(d, screen, now),
        }
    }

    /// The compositor has answered a configuration. One that is not the request's is a
    /// leftover from an attempt already given up on.
    pub open spec fn answered(self, d: DynResView, number: u64, verdict: Verdict, screen: ScreenView, now: u64) -> Run {
        match self.active {
            Some(a) if a.config == Some(number) => {
                let b = ActiveView { config: None, ..a };
                match verdict {
                    Verdict::Succeeded => {
                        let s = OutputConfigView {
                            active: Some(
                                ActiveView { phase: Phase::Settling, deadline: later(now, SETTLE_TIMEOUT), ..b },
                            ),
                            ..self
                        };
                        if a.settled(screen) {
                            s.succeeded(d)
                        } else {
                            s.idle(d)
                        }
                    },
                    Verdict::Failed => OutputConfigView { active: Some(b), ..self }.applied_next(d, now),
                    // retry the same attempt once the fresh `done` has landed
                    Verdict::Cancelled => if a.cancelled >= MAX_CANCELLED {
                        OutputConfigView { active: Some(b), ..self }.failed(d, Reason::Cancelling)
                    } else {
                        OutputConfigView {
                            active: Some(
                                ActiveView {
                                    attempts: match a.current {
                                        Some(cur) => seq![cur] + a.attempts,
                                        None => a.attempts,
                                    },
                                    current: None,
                                    phase: Phase::Cancelled,
                                    deadline: later(now, CANCEL_TIMEOUT),
                                    cancelled: (a.cancelled + 1) as u8,
                                    ..b
                                },
                            ),
                            ..self
                        }.advanced(d, screen, now)
                    },
                }
            },
            _ => self.idle(d),
        }
    }

    /// With what the compositor said of a head.
    pub open spec fn head_told(self, id: u32, event: HeadEvent) -> OutputConfigView {
        match list::first_index(self.heads, head_is(id)) {
            None => self,
            Some(i) => {
                let h = self.heads[i];
                match event {
                    HeadEvent::Name(name) => self.with_head(i, HeadView { name: name@, ..h }),
                    HeadEvent::Enabled(enabled) => self.with_head(i, HeadView { enabled, ..h }),
                    HeadEvent::Mode(mode) => self.with_head(
                        i,
                        HeadView {
                            modes: h.modes.push(
                                Mode { id: mode, width: 0, height: 0, refresh: 0, preferred: false },
                            ),
                            ..h
                        },
                    ),
                }
            },
        }
    }

    /// With what the compositor said of a mode.
    pub open spec fn mode_told(self, mode: u32, event: ModeEvent) -> OutputConfigView {
        match list::first_index(self.heads, owns(mode)) {
            None => self,
            Some(i) => {
                let h = self.heads[i];
                match list::first_index(h.modes, mode_is(mode)) {
                    None => self,
                    Some(k) => {
                        let m = h.modes[k];
                        let n = match event {
                            ModeEvent::Size { width, height } => Mode { width, height, ..m },
                            ModeEvent::Refresh(refresh) => Mode { refresh, ..m },
                            ModeEvent::Preferred => Mode { preferred: true, ..m },
                        };
                        self.with_head(i, HeadView { modes: h.modes.update(k, n), ..h })
                    },
                }
            },
        }
    }

    /// Without a mode.
    pub open spec fn mode_gone(self, mode: u32) -> OutputConfigView {
        match list::first_index(self.heads, owns(mode)) {
            None => self,
            Some(i) => {
                let h = self.heads[i];
                self.with_head(i, HeadView { modes: list::only(h.modes, mode_is_not(mode)), ..h })
            },
        }
    }

    /// Without a head.
    pub open spec fn without_head(self, id: u32) -> OutputConfigView {
        match list::first_index(self.heads, head_is(id)) {
            None => self,
            Some(i) => OutputConfigView { heads: self.heads.remove(i), ..self },
        }
    }

    /// A head is gone, and the request with it if it was on that.
    pub open spec fn head_gone(self, d: DynResView, id: u32) -> Run {
        let s = self.without_head(id);
        match s.active {
            Some(a) if a.head == id => s.failed(d, Reason::OutputGone),
            _ => s.idle(d),
        }
    }
}

fn after(now: u64, by: u64) -> (t: u64)
    ensures
        t == later(now, by),
{
    if by > u64::MAX - now {
        u64::MAX
    } else {
        now + by
    }
}

fn nothing() -> (w: Work)
    ensures
        w.apply is None && w.destroy is None,
{
    Work { apply: None, destroy: None }
}

fn copy_attempts(a: &Vec<Attempt>, from: usize) -> (v: Vec<Attempt>)
    requires
        from <= a@.len(),
    ensures
        v@ == a@.skip(from as int),
{
    let mut v: Vec<Attempt> = Vec::new();
    let mut i: usize = from;
    while i < a.len()
        invariant
            from <= i <= a.len(),
            v@ == a@.subrange(from as int, i as int),
        decreases a.len() - i,
    {
        v.push(a[i]);
        assert(a@.subrange(from as int, i as int + 1) =~= a@.subrange(from as int, i as int).push(a@[i as int]));
        i += 1;
    }
    assert(a@.subrange(from as int, a@.len() as int) =~= a@.skip(from as int));
    v
}

/// The index of a mode.
fn mode_index(modes: &Vec<Mode>, id: u32) -> (r: Option<usize>)
    ensures
        match r {
            Some(i) => i < modes@.len() && list::first_index(modes@, mode_is(id)) == Some(i as int),
            None => list::first_index(modes@, mode_is(id)) is None,
        },
{
    let mut i: usize = 0;
    while i < modes.len()
        invariant
            i <= modes.len(),
            forall|j: int| 0 <= j < i ==> !mode_is(id)(#[trigger] modes@[j]),
        decreases modes.len() - i,
    {
        if modes[i].id == id {
            proof {
                list::lemma_first_index_is(modes@, mode_is(id), i as int);
            }
            return Some(i);
        }
        i += 1;
    }
    proof {
        list::lemma_first_index_none(modes@, mode_is(id));
    }
    None
}

/// The preferred one of the modes of that size, else the fastest.
fn best_of_size(modes: &Vec<Mode>, width: i32, height: i32) -> (r: Option<Mode>)
    ensures
        r == best(list::only(modes@, of_size(width, height))),
        r is Some == (list::first_index(modes@, of_size(width, height)) is Some),
{
    let mut r: Option<Mode> = None;
    let mut i: usize = 0;
    let ghost p = of_size(width, height);
    while i < modes.len()
        invariant
            i <= modes.len(),
            p == of_size(width, height),
            r == best(list::only(modes@.take(i as int), p)),
            r is Some == (list::first_index(modes@.take(i as int), p) is Some),
        decreases modes.len() - i,
    {
        let m = modes[i];
        assert(modes@.take(i as int + 1).drop_last() =~= modes@.take(i as int));
        let ghost kept = list::only(modes@.take(i as int), p);
        if m.width == width && m.height == height {
            assert(kept.push(m).drop_last() =~= kept);
            let take = match r {
                Some(b) => if m.preferred != b.preferred {
                    m.preferred
                } else {
                    m.refresh >= b.refresh
                },
                None => true,
            };
            if take {
                r = Some(m);
            }
        }
        i += 1;
    }
    assert(modes@.take(modes@.len() as int) =~= modes@);
    r
}

impl Active {
    /// The attempts for a size.
    pub fn plan(head: &Head, mode_w: i32, mode_h: i32, refresh: i32, zero_first: bool) -> (attempts: Vec<Attempt>)
        ensures
            attempts@ == planned(head@.modes, mode_w, mode_h, refresh, zero_first),
    {
        let mut attempts: Vec<Attempt> = Vec::new();
        if best_of_size(&head.modes, mode_w, mode_h).is_some() {
            attempts.push(Attempt::Advertised);
        }
        let ghost start = attempts@;
        let zero = Attempt::Custom { refresh: 0 };
        let own = Attempt::Custom {
            refresh: if refresh > 0 {
                refresh
            } else {
                DEFAULT_REFRESH_MHZ
            },
        };
        if zero_first {
            attempts.push(zero);
            attempts.push(own);
            assert(attempts@ =~= start + seq![zero, own]);
        } else {
            attempts.push(own);
            attempts.push(zero);
            assert(attempts@ =~= start + seq![own, zero]);
        }
        attempts
    }

    fn set_head(&self, h: &Head, attempt: Attempt) -> (s: HeadSetting)
        ensures
            s == self@.setting(h@, attempt),
    {
        if h.id != self.head {
            return if h.enabled {
                HeadSetting::Keep
            } else {
                HeadSetting::Disable
            };
        }
        match attempt {
            Attempt::Advertised => match best_of_size(&h.modes, self.mode_w, self.mode_h) {
                Some(m) => HeadSetting::Mode(m.id),
                None => HeadSetting::Custom { width: self.mode_w, height: self.mode_h, refresh: 0 },
            },
            Attempt::Custom { refresh } => HeadSetting::Custom { width: self.mode_w, height: self.mode_h, refresh },
        }
    }

    fn set_heads(&self, heads: &Vec<Head>, attempt: Attempt) -> (v: Vec<(u32, HeadSetting)>)
        ensures
            v@ == self@.settings(head_views(heads@), attempt),
    {
        let mut v: Vec<(u32, HeadSetting)> = Vec::new();
        let mut i: usize = 0;
        let ghost all = self@.settings(head_views(heads@), attempt);
        while i < heads.len()
            invariant
                i <= heads.len(),
                all == self@.settings(head_views(heads@), attempt),
                v@ == all.take(i as int),
            decreases heads.len() - i,
        {
            v.push((heads[i].id, self.set_head(&heads[i], attempt)));
            assert(all.take(i as int + 1) =~= all.take(i as int).push(all[i as int]));
            i += 1;
        }
        assert(all.take(heads@.len() as int) =~= all);
        v
    }

    /// Whether the RandR model now shows the request's size on its output.
    pub fn is_settled(&self, screen: &Screen) -> (b: bool)
        ensures
            b == self@.settled(screen@),
    {
        match screen.output_by_wl_name(self.req.wl_name) {
            Some(o) => o.width == self.req.width && o.height == self.req.height,
            None => false,
        }
    }
}

impl Work {
    /// The work is what the run asks for.
    pub open spec fn of(self, run: Run) -> bool {
        &&& self.destroy == run.destroy
        &&& match self.apply {
            Some(c) => run.apply == Some(c@),
            None => run.apply is None,
        }
    }
}

impl OutputConfig {
    pub open spec fn wf(self) -> bool {
        self@.valid()
    }

    pub fn new() -> (c: OutputConfig)
        ensures
            c.wf(),
            c@ == (OutputConfigView {
                serial: None,
                heads: Seq::empty(),
                active: None,
                zero_refresh_first: true,
                next_config: 0,
            }),
    {
        OutputConfig { serial: None, heads: Vec::new(), active: None, zero_refresh_first: true, next_config: 0 }
    }

    /// The index of a head.
    fn head_index(&self, id: u32) -> (r: Option<usize>)
        ensures
            match r {
                Some(i) => i < self.heads@.len() && list::first_index(self@.heads, head_is(id)) == Some(i as int),
                None => list::first_index(self@.heads, head_is(id)) is None,
            },
    {
        let mut i: usize = 0;
        while i < self.heads.len()
            invariant
                i <= self.heads.len(),
                forall|j: int| 0 <= j < i ==> !head_is(id)(#[trigger] self@.heads[j]),
            decreases self.heads.len() - i,
        {
            if self.heads[i].id == id {
                proof {
                    list::lemma_first_index_is(self@.heads, head_is(id), i as int);
                }
                return Some(i);
            }
            i += 1;
        }
        proof {
            list::lemma_first_index_none(self@.heads, head_is(id));
        }
        None
    }

    /// The index of the head owning `mode`, for the mode's own events.
    fn head_of_mode(&self, mode: u32) -> (r: Option<usize>)
        ensures
            match r {
                Some(i) => i < self.heads@.len() && list::first_index(self@.heads, owns(mode)) == Some(i as int),
                None => list::first_index(self@.heads, owns(mode)) is None,
            },
    {
        let mut i: usize = 0;
        while i < self.heads.len()
            invariant
                i <= self.heads.len(),
                forall|j: int| 0 <= j < i ==> !owns(mode)(#[trigger] self@.heads[j]),
            decreases self.heads.len() - i,
        {
            if mode_index(&self.heads[i].modes, mode).is_some() {
                proof {
                    list::lemma_first_index_is(self@.heads, owns(mode), i as int);
                }
                return Some(i);
            }
            i += 1;
        }
        proof {
            list::lemma_first_index_none(self@.heads, owns(mode));
        }
        None
    }

    /// What is said where no head is behind the output called `name`.
    pub fn no_head(&self, name: &[u8]) -> (text: String)
        ensures
            text@ == no_head_text(quoted(targets::utf8_lossy(name@)), head_names(self@.heads)),
    {
        let mut names: Vec<String> = Vec::new();
        let ghost all = head_names(self@.heads);
        let mut i: usize = 0;
        while i < self.heads.len()
            invariant
                i <= self.heads.len(),
                all == head_names(self@.heads),
                names@.len() == i,
                forall|j: int| 0 <= j < i ==> (#[trigger] names@[j])@ == all[j],
            decreases self.heads.len() - i,
        {
            names.push(targets::from_utf8_lossy(self.heads[i].name.as_slice()));
            i += 1;
        }
        assert(list::texts(names@) =~= all);
        let name = targets::from_utf8_lossy(name);
        no_head_message(debug_text(name.as_str()).as_str(), &names)
    }

    /// The index of the head behind the output called `name`.
    pub fn head_named(&self, name: &Vec<u8>) -> (r: Option<usize>)
        ensures
            match r {
                Some(i) => i < self.heads@.len() && self@.head_for(name@) == Some(i as int),
                None => self@.head_for(name@) is None,
            },
    {
        let ghost p = called(name@);
        if name.len() > 0 {
            let mut i: usize = 0;
            while i < self.heads.len()
                invariant
                    i <= self.heads.len(),
                    p == called(name@),
                    name@.len() > 0,
                    forall|j: int| 0 <= j < i ==> !p(#[trigger] self@.heads[j]),
                decreases self.heads.len() - i,
            {
                if list::same_bytes(self.heads[i].name.as_slice(), name.as_slice()) {
                    proof {
                        list::lemma_first_index_is(self@.heads, p, i as int);
                    }
                    return Some(i);
                }
                i += 1;
            }
            proof {
                list::lemma_first_index_none(self@.heads, p);
            }
        }
        if self.heads.len() == 1 && (name.len() == 0 || self.heads[0].name.len() == 0) {
            Some(0)
        } else {
            None
        }
    }

    /// Gives up on the request.
    pub fn dynres_fail(&mut self, dynres: &mut DynRes, reason: Reason<String>) -> (w: Work)
        ensures
            final(self)@ == old(self)@.failed(old(dynres)@, reason@).cfg,
            final(dynres)@ == old(self)@.failed(old(dynres)@, reason@).dynres,
            w.of(old(self)@.failed(old(dynres)@, reason@)),
    {
        match self.active.take() {
            Some(active) => {
                dynres.complete(active.req.id, Err(reason));
                Work { apply: None, destroy: active.config }
            },
            None => nothing(),
        }
    }

    fn dynres_succeed(&mut self, dynres: &mut DynRes) -> (w: Work)
        ensures
            final(self)@ == old(self)@.succeeded(old(dynres)@).cfg,
            final(dynres)@ == old(self)@.succeeded(old(dynres)@).dynres,
            w.of(old(self)@.succeeded(old(dynres)@)),
    {
        match self.active.take() {
            Some(active) => {
                if let Some(Attempt::Custom { refresh }) = active.current {
                    self.zero_refresh_first = refresh == 0;
                }
                dynres.complete(active.req.id, Ok(()));
                Work { apply: None, destroy: active.config }
            },
            None => nothing(),
        }
    }

    /// Applies the next attempt, or fails the request when none is left.
    fn dynres_apply_next(&mut self, dynres: &mut DynRes, now: u64) -> (w: Work)
        ensures
            final(self)@ == old(self)@.applied_next(old(dynres)@, now).cfg,
            final(dynres)@ == old(self)@.applied_next(old(dynres)@, now).dynres,
            w.of(old(self)@.applied_next(old(dynres)@, now)),
    {
        let serial: u32 = match self.serial {
            Some(s) => s,
            None => {
                return nothing();
            },
        };
        let empty = match &self.active {
            Some(a) => a.attempts.len() == 0,
            None => {
                return nothing();
            },
        };
        if empty {
            return self.dynres_fail(dynres, Reason::Rejected);
        }
        match self.active.take() {
            Some(active) => {
                let attempt = active.attempts[0];
                let heads = active.set_heads(&self.heads, attempt);
                let number: u64 = self.next_config;
                self.next_config = self.next_config.wrapping_add(1);
                let attempts = copy_attempts(&active.attempts, 1);
                self.active = Some(
                    Active {
                        req: active.req,
                        head: active.head,
                        mode_w: active.mode_w,
                        mode_h: active.mode_h,
                        attempts,
                        current: Some(attempt),
                        phase: Phase::Applying,
                        deadline: after(now, APPLY_TIMEOUT),
                        config: Some(number),
                        serial_used: serial,
                        cancelled: active.cancelled,
                    },
                );
                Work { apply: Some(Configuration { number, serial, heads }), destroy: active.config }
            },
            None => nothing(),
        }
    }

    /// Moves the active request along: applies when a serial is there, re-applies after a
    /// cancel, and enforces the deadlines.
    pub fn dynres_advance(&mut self, dynres: &mut DynRes, screen: &Screen, now: u64) -> (w: Work)
        ensures
            final(self)@ == old(self)@.advanced(old(dynres)@, screen@, now).cfg,
            final(dynres)@ == old(self)@.advanced(old(dynres)@, screen@, now).dynres,
            w.of(old(self)@.advanced(old(dynres)@, screen@, now)),
    {
        let (phase, late, used, settled) = match &self.active {
            Some(a) => (a.phase, now >= a.deadline, a.serial_used, a.is_settled(screen)),
            None => {
                return nothing();
            },
        };
        match phase {
            Phase::NeedSerial => {
                if self.serial.is_some() {
                    self.dynres_apply_next(dynres, now)
                } else if late {
                    self.dynres_fail(dynres, Reason::NoSerial)
                } else {
                    nothing()
                }
            },
            Phase::Applying => {
                if late {
                    self.dynres_fail(dynres, Reason::Unanswered)
                } else {
                    nothing()
                }
            },
            Phase::Settling => {
                if settled {
                    self.dynres_succeed(dynres)
                } else if late {
                    self.dynres_apply_next(dynres, now)
                } else {
                    nothing()
                }
            },
            Phase::Cancelled => {
                let fresh = match self.serial {
                    Some(s) => s != used,
                    None => false,
                };
                if fresh {
                    self.dynres_apply_next(dynres, now)
                } else if late {
                    self.dynres_fail(dynres, Reason::Cancelling)
                } else {
                    nothing()
                }
            },
        }
    }

    /// Resolves a request against its output and the heads and queues its first attempt.
    pub fn dynres_start(&mut self, dynres: &mut DynRes, req: ModeRequest, acc: Option<&OutputAcc>, now: u64)
        ensures
            ({
                let heard = match acc {
                    Some(a) => Some(*a),
                    None => None,
                };
                &&& final(self)@ == old(self)@.started(old(dynres)@, req, heard, now).cfg
                &&& final(dynres)@ == old(self)@.started(old(dynres)@, req, heard, now).dynres
            }),
    {
        let acc = match acc {
            Some(a) => a,
            None => {
                dynres.complete(req.id, Err(Reason::NoOutput));
                return;
            },
        };
        let i: usize = match self.head_named(&acc.name) {
            Some(i) => i,
            None => {
                let text = self.no_head(acc.name.as_slice());
                dynres.complete(req.id, Err(Reason::NoHead(text)));
                return;
            },
        };
        // the request is the size on screen; the mode is the panel's own orientation,
        // which a 90/270 transform swaps
        let (mode_w, mode_h) = if acc.transform.swaps_axes() {
            (req.height as i32, req.width as i32)
        } else {
            (req.width as i32, req.height as i32)
        };
        let attempts = Active::plan(&self.heads[i], mode_w, mode_h, acc.refresh_mhz, self.zero_refresh_first);
        let head: u32 = self.heads[i].id;
        self.active = Some(
            Active {
                req,
                head,
                mode_w,
                mode_h,
                attempts,
                current: None,
                phase: Phase::NeedSerial,
                deadline: after(now, SERIAL_TIMEOUT),
                config: None,
                serial_used: 0,
                cancelled: 0,
            },
        );
    }

    /// Picks up a parked request and drives the active one forward. Done on every pass of
    /// the event loop, so the deadlines need no timer of their own.
    pub fn tick_dynres(&mut self, dynres: &mut DynRes, outputs: &Outputs, screen: &Screen, now: u64) -> (w: Work)
        ensures
            ({
                let run = old(self)@.ticked(old(dynres)@, outputs.accs@, screen@, now);
                &&& final(self)@ == run.cfg
                &&& final(dynres)@ == run.dynres
                &&& w.of(run)
            }),
    {
        if let Some(req) = self.next_request(dynres) {
            self.dynres_start(dynres, req, outputs.get(req.wl_name), now);
        }
        self.dynres_advance(dynres, screen, now)
    }

    /// The request to pick up, if none is being carried out.
    fn next_request(&self, dynres: &mut DynRes) -> (r: Option<ModeRequest>)
        ensures
            self@.active is Some ==> r is None && final(dynres)@ == old(dynres)@,
            self@.active is None ==> final(dynres)@ == old(dynres)@.taken() && r == (if old(dynres)@.in_flight is Some {
                None
            } else {
                old(dynres)@.queued
            }),
    {
        if self.active.is_some() {
            None
        } else {
            dynres.take()
        }
    }

    /// Called after an output's state was applied to the screen: the compositor's answer
    /// to the active request arrives this way.
    pub fn dynres_output_changed(&mut self, dynres: &mut DynRes, screen: &Screen, wl_name: u32) -> (w: Work)
        ensures
            ({
                let run = match old(self)@.active {
                    Some(a) if a.req.wl_name == wl_name && a.phase == Phase::Settling && a.settled(screen@) => old(
                        self,
                    )@.succeeded(old(dynres)@),
                    _ => old(self)@.idle(old(dynres)@),
                };
                &&& final(self)@ == run.cfg
                &&& final(dynres)@ == run.dynres
                &&& w.of(run)
            }),
    {
        let done = match &self.active {
            Some(a) => a.req.wl_name == wl_name && a.phase == Phase::Settling && a.is_settled(screen),
            None => false,
        };
        if done {
            self.dynres_succeed(dynres)
        } else {
            nothing()
        }
    }

    /// Called when an output went away.
    pub fn dynres_output_removed(&mut self, dynres: &mut DynRes, wl_name: u32) -> (w: Work)
        ensures
            ({
                let run = match old(self)@.active {
                    Some(a) if a.req.wl_name == wl_name => old(self)@.failed(old(dynres)@, Reason::OutputGone),
                    _ => old(self)@.idle(old(dynres)@),
                };
                &&& final(self)@ == run.cfg
                &&& final(dynres)@ == run.dynres
                &&& w.of(run)
            }),
    {
        let hit = match &self.active {
            Some(a) => a.req.wl_name == wl_name,
            None => false,
        };
        if hit {
            self.dynres_fail(dynres, Reason::OutputGone)
        } else {
            nothing()
        }
    }

    /// The compositor answered the configuration of that number, which is to be destroyed
    /// whatever it was.
    pub fn dynres_config_event(
        &mut self,
        dynres: &mut DynRes,
        screen: &Screen,
        number: u64,
        verdict: Verdict,
        now: u64,
    ) -> (w: Work)
        requires
            old(self).wf(),
        ensures
            final(self).wf(),
            final(self)@ == old(self)@.answered(old(dynres)@, number, verdict, screen@, now).cfg,
            final(dynres)@ == old(self)@.answered(old(dynres)@, number, verdict, screen@, now).dynres,
            w.of(old(self)@.answered(old(dynres)@, number, verdict, screen@, now)),
    {
        let ours = match &self.active {
            Some(a) => match a.config {
                Some(c) => c == number,
                None => false,
            },
            None => false,
        };
        if !ours {
            return nothing();
        }
        match self.active.take() {
            Some(a) => {
                let settled = a.is_settled(screen);
                match verdict {
                    Verdict::Succeeded => {
                        // the compositor now re-describes the output; the request is done
                        // once that shows the requested size
                        self.active = Some(
                            Active { config: None, phase: Phase::Settling, deadline: after(now, SETTLE_TIMEOUT), ..a },
                        );
                        if settled {
                            self.dynres_succeed(dynres)
                        } else {
                            nothing()
                        }
                    },
                    Verdict::Failed => {
                        self.active = Some(Active { config: None, ..a });
                        self.dynres_apply_next(dynres, now)
                    },
                    Verdict::Cancelled => {
                        if a.cancelled >= MAX_CANCELLED {
                            self.active = Some(Active { config: None, ..a });
                            return self.dynres_fail(dynres, Reason::Cancelling);
                        }
                        let mut attempts = a.attempts;
                        if let Some(cur) = a.current {
                            let ghost before = attempts@;
                            attempts.insert(0, cur);
                            assert(attempts@ =~= seq![cur] + before);
                        }
                        let cancelled: u8 = a.cancelled + 1;
                        self.active = Some(
                            Active {
                                req: a.req,
                                head: a.head,
                                mode_w: a.mode_w,
                                mode_h: a.mode_h,
                                attempts,
                                current: None,
                                phase: Phase::Cancelled,
                                deadline: after(now, CANCEL_TIMEOUT),
                                config: None,
                                serial_used: a.serial_used,
                                cancelled,
                            },
                        );
                        self.dynres_advance(dynres, screen, now)
                    },
                }
            },
            None => nothing(),
        }
    }

    /// A head appeared.
    pub fn head_added(&mut self, id: u32)
        ensures
            final(self)@ == (OutputConfigView {
                heads: old(self)@.heads.push(
                    HeadView { id, name: Seq::empty(), enabled: false, modes: Seq::empty() },
                ),
                ..old(self)@
            }),
    {
        self.heads.push(Head { id, name: Vec::new(), enabled: false, modes: Vec::new() });
    }

    /// One atomic batch of head and mode state has landed; the serial is what a
    /// configuration must be created against.
    pub fn done(&mut self, dynres: &mut DynRes, screen: &Screen, serial: u32, now: u64) -> (w: Work)
        ensures
            ({
                let run = (OutputConfigView { serial: Some(serial), ..old(self)@ }).advanced(
                    old(dynres)@,
                    screen@,
                    now,
                );
                &&& final(self)@ == run.cfg
                &&& final(dynres)@ == run.dynres
                &&& w.of(run)
            }),
    {
        self.serial = Some(serial);
        assert(self@ =~= (OutputConfigView { serial: Some(serial), ..old(self)@ }));
        self.dynres_advance(dynres, screen, now)
    }

    /// The compositor withdrew the output manager: dynamic resolution is off.
    pub fn finished(&mut self, dynres: &mut DynRes) -> (w: Work)
        ensures
            ({
                let run = old(self)@.failed(old(dynres)@, Reason::Withdrawn);
                &&& final(self)@ == run.cfg
                &&& final(dynres)@ == (DynResView { available: false, ..run.dynres })
                &&& w.of(run)
            }),
    {
        let w = self.dynres_fail(dynres, Reason::Withdrawn);
        dynres.set_available(false);
        w
    }

    /// The compositor said something of a head.
    pub fn head_event(&mut self, id: u32, event: HeadEvent)
        ensures
            final(self)@ == old(self)@.head_told(id, event),
    {
        let i: usize = match self.head_index(id) {
            Some(i) => i,
            None => {
                return;
            },
        };
        match event {
            HeadEvent::Name(name) => {
                self.heads[i].name = name;
            },
            HeadEvent::Enabled(enabled) => {
                self.heads[i].enabled = enabled;
            },
            HeadEvent::Mode(mode) => {
                self.heads[i].modes.push(Mode { id: mode, width: 0, height: 0, refresh: 0, preferred: false });
            },
        }
        assert(self@ =~= old(self)@.head_told(id, event));
    }

    /// A head is gone. Returns it, so that it and its modes can be released.
    pub fn head_finished(&mut self, dynres: &mut DynRes, id: u32) -> (r: (Option<Head>, Work))
        ensures
            ({
                let run = old(self)@.head_gone(old(dynres)@, id);
                &&& final(self)@ == run.cfg
                &&& final(dynres)@ == run.dynres
                &&& r.1.of(run)
            }),
            match list::first_index(old(self)@.heads, head_is(id)) {
                Some(i) => r.0 matches Some(h) && h@ == old(self)@.heads[i],
                None => r.0 is None,
            },
    {
        let gone = match self.head_index(id) {
            Some(i) => Some(self.heads.remove(i)),
            None => None,
        };
        assert(self@ =~= old(self)@.without_head(id));
        let hit = match &self.active {
            Some(a) => a.head == id,
            None => false,
        };
        let w = if hit {
            self.dynres_fail(dynres, Reason::OutputGone)
        } else {
            nothing()
        };
        (gone, w)
    }

    /// The compositor said something of a mode.
    pub fn mode_event(&mut self, mode: u32, event: ModeEvent)
        ensures
            final(self)@ == old(self)@.mode_told(mode, event),
    {
        let i: usize = match self.head_of_mode(mode) {
            Some(i) => i,
            None => {
                return;
            },
        };
        let k: usize = match mode_index(&self.heads[i].modes, mode) {
            Some(k) => k,
            None => {
                return;
            },
        };
        let m = self.heads[i].modes[k];
        let n = match event {
            ModeEvent::Size { width, height } => Mode { width, height, ..m },
            ModeEvent::Refresh(refresh) => Mode { refresh, ..m },
            ModeEvent::Preferred => Mode { preferred: true, ..m },
        };
        self.heads[i].modes.set(k, n);
        assert(self@ =~= old(self)@.mode_told(mode, event));
    }

    /// A mode is gone.
    pub fn mode_finished(&mut self, mode: u32)
        ensures
            final(self)@ == old(self)@.mode_gone(mode),
    {
        let i: usize = match self.head_of_mode(mode) {
            Some(i) => i,
            None => {
                return;
            },
        };
        let ghost p = mode_is_not(mode);
        let ghost modes = self.heads@[i as int].modes@;
        let mut left: Vec<Mode> = Vec::new();
        let mut k: usize = 0;
        while k < self.heads[i].modes.len()
            invariant
                i < self.heads@.len(),
                self.heads@[i as int].modes@ == modes,
                k <= modes.len(),
                p == mode_is_not(mode),
                left@ == list::only(modes.take(k as int), p),
                *self == *old(self),
            decreases modes.len() - k,
        {
            let m = self.heads[i].modes[k];
            assert(modes.take(k as int + 1).drop_last() =~= modes.take(k as int));
            if m.id != mode {
                left.push(m);
            }
            k += 1;
        }
        assert(modes.take(modes.len() as int) =~= modes);
        self.heads[i].modes = left;
        assert(self@ =~= old(self)@.mode_gone(mode));
    }
}

/// A parked request is picked up on the next pass, and is then being carried out or has
/// been answered.
pub proof fn law_parked_requests_are_picked_up(
    c: OutputConfigView,
    d: DynResView,
    outputs: Seq<(u32, OutputAcc)>,
    screen: ScreenView,
    now: u64,
)
    requires
        c.active is None,
        d.in_flight is None,
        d.queued is Some,
    ensures
        ({
            let run = c.ticked(d, outputs, screen, now);
            let req = d.queued->0;
            &&& run.dynres.queued is None
            &&& (run.cfg.active matches Some(a) && a.req == req && run.dynres.in_flight == Some(req.id)) || (
            run.dynres.done matches Some((id, _)) && id == req.id && run.dynres.in_flight is None)
        }),
{
}

/// Without an output manager a parked request is refused. Returns whether there was one.
pub fn tick_without_manager(dynres: &mut DynRes) -> (refused: bool)
    ensures
        refused == (old(dynres)@.in_flight is None && old(dynres)@.queued is Some),
        final(dynres)@ == (match old(dynres)@.queued {
            Some(req) if old(dynres)@.in_flight is None => old(dynres)@.taken().completed(
                req.id,
                Err(Reason::NoManager),
            ),
            _ => old(dynres)@,
        }),
{
    match dynres.take() {
        Some(req) => {
            dynres.complete(req.id, Err(Reason::NoManager));
            true
        },
        None => false,
    }
}

/// A configuration mentions every head, and leaves the ones that the request is not
/// about as they are.
pub proof fn law_every_head_is_configured(c: OutputConfigView, d: DynResView, now: u64)
    ensures
        c.applied_next(d, now).apply matches Some(conf) ==> {
            &&& conf.heads.len() == c.heads.len()
            &&& forall|i: int|
                0 <= i < c.heads.len() ==> {
                    let (id, setting) = #[trigger] conf.heads[i];
                    let h = c.heads[i];
                    &&& id == h.id
                    &&& h.id != c.active->0.head ==> setting == (if h.enabled {
                        HeadSetting::Keep
                    } else {
                        HeadSetting::Disable
                    })
                }
        },
{
}

/// A request only succeeds once the screen shows its size: a compositor's word alone
/// does not do it.
pub proof fn law_success_is_seen_on_the_screen(
    c: OutputConfigView,
    d: DynResView,
    number: u64,
    verdict: Verdict,
    screen: ScreenView,
    now: u64,
)
    requires
        c.active matches Some(a) && !a.settled(screen),
    ensures
        c.advanced(d, screen, now).dynres.done != d.done ==> (c.advanced(d, screen, now).dynres.done matches Some(
            (_, r),
        ) && r is Err),
        c.answered(d, number, verdict, screen, now).dynres.done != d.done ==> (c.answered(
            d,
            number,
            verdict,
            screen,
            now,
        ).dynres.done matches Some((_, r)) && r is Err),
{
}

/// Whatever the compositor answers, a request that is given up or carried out is
/// reported under its own number, and the next one can be picked up.
pub proof fn law_every_end_is_reported(
    c: OutputConfigView,
    d: DynResView,
    number: u64,
    verdict: Verdict,
    screen: ScreenView,
    now: u64,
)
    requires
        c.active matches Some(a) && d.in_flight == Some(a.req.id),
    ensures
        c.answered(d, number, verdict, screen, now).cfg.active is None ==> {
            let after = c.answered(d, number, verdict, screen, now).dynres;
            &&& after.in_flight is None
            &&& after.done matches Some((id, _)) && id == c.active->0.req.id
        },
        c.advanced(d, screen, now).cfg.active is None ==> {
            let after = c.advanced(d, screen, now).dynres;
            &&& after.in_flight is None
            &&& after.done matches Some((id, _)) && id == c.active->0.req.id
        },
{
}

/// A request that is being carried out does not wait past its deadline: there is another
/// attempt, which uses one up, or it ends.
pub proof fn law_deadlines_move_a_request_along(c: OutputConfigView, d: DynResView, screen: ScreenView, now: u64)
    requires
        c.active matches Some(a) && now >= a.deadline,
        c.active->0.phase != Phase::NeedSerial ==> c.serial is Some,
    ensures
        c.advanced(d, screen, now).cfg.active matches Some(b) ==> b.attempts.len() < c.active->0.attempts.len(),
{
}

/// The two ways of asking for a custom mode are both planned, and the one that worked
/// last comes first.
pub proof fn law_what_worked_is_tried_first(c: OutputConfigView, d: DynResView, refresh: i32)
    requires
        c.active matches Some(a) && a.current == Some(Attempt::Custom { refresh }),
    ensures
        ({
            let zero_first = c.succeeded(d).cfg.zero_refresh_first;
            let plan = planned(Seq::empty(), 1, 1, refresh, zero_first);
            refresh >= 0 ==> plan.len() == 2 && plan[0] == (Attempt::Custom { refresh })
        }),
{
    assert(list::first_index(Seq::<Mode>::empty(), of_size(1, 1)) is None);
}

/// The best of the modes is one of them, and no other is better.
pub proof fn law_best_mode(modes: Seq<Mode>)
    ensures
        best(modes) is Some <==> modes.len() > 0,
        best(modes) matches Some(b) ==> modes.contains(b) && forall|i: int|
            0 <= i < modes.len() ==> as_good(b, #[trigger] modes[i]),
    decreases modes.len(),
{
    if modes.len() > 0 {
        let rest = modes.drop_last();
        law_best_mode(rest);
        assert(modes[modes.len() - 1] == modes.last());
        assert(forall|i: int| 0 <= i < rest.len() ==> rest[i] == modes[i]);
        if let Some(b) = best(rest) {
            let k = choose|k: int| 0 <= k < rest.len() && rest[k] == b;
            assert(modes[k] == b);
            assert forall|i: int| 0 <= i < modes.len() implies as_good(best(modes)->0, #[trigger] modes[i]) by {
                if i < rest.len() {
                    assert(as_good(b, rest[i]));
                }
            }
        }
    }
}

/// A turned output is asked for a mode that is of the requested size once it is turned.
pub proof fn law_modes_are_of_the_requested_size_when_turned(
    c: OutputConfigView,
    d: DynResView,
    req: ModeRequest,
    acc: OutputAcc,
    now: u64,
)
    requires
        c.head_for(acc.name@) is Some,
    ensures
        c.started(d, req, Some(acc), now).cfg.active matches Some(a) && {
            &&& acc.transform.size_of(a.mode_w as int, a.mode_h as int) == (req.width as int, req.height as int)
            &&& a.req == req
            &&& a.head == c.heads[c.head_for(acc.name@)->0].id
            &&& a.attempts.len() >= 2
        },
{
}

/// The head that is asked gets a mode of the size that was planned, or that size itself;
/// every other head stays as it is.
pub proof fn law_only_the_asked_head_changes(a: ActiveView, h: HeadView, attempt: Attempt)
    ensures
        h.id != a.head && h.enabled ==> a.setting(h, attempt) is Keep,
        h.id != a.head && !h.enabled ==> a.setting(h, attempt) is Disable,
        h.id == a.head ==> match a.setting(h, attempt) {
            HeadSetting::Mode(id) => exists|m: Mode|
                #[trigger] h.modes.contains(m) && m.id == id && m.width == a.mode_w && m.height == a.mode_h,
            HeadSetting::Custom { width, height, refresh } => width == a.mode_w && height == a.mode_h && (
            attempt matches Attempt::Custom { refresh: r } ==> refresh == r),
            _ => false,
        },
{
    let of = list::only(h.modes, of_size(a.mode_w, a.mode_h));
    list::lemma_only_holds(h.modes, of_size(a.mode_w, a.mode_h));
    lemma_best_is_one(of);
    if let Some(m) = best(of) {
        assert(of.contains(m));
        assert(h.modes.contains(m) && of_size(a.mode_w, a.mode_h)(m));
    }
}

proof fn lemma_best_is_one(modes: Seq<Mode>)
    ensures
        best(modes) matches Some(m) ==> modes.contains(m),
    decreases modes.len(),
{
    if modes.len() > 0 {
        let r = modes.drop_last();
        lemma_best_is_one(r);
        assert(modes[modes.len() - 1] == modes.last());
        if let Some(m) = best(r) {
            let k = r.index_of(m);
            assert(modes[k] == m);
        }
    }
}

/// The head behind an output is the one of its name, or the only one there is where one of
/// them has no name.
pub proof fn law_head_is_the_one_of_that_name(c: OutputConfigView, name: Seq<u8>, i: int)
    requires
        0 <= i < c.heads.len(),
    ensures
        c.head_for(name) matches Some(k) ==> 0 <= k < c.heads.len() && (c.heads[k].name == name || c.heads.len() == 1),
        name.len() > 0 && c.heads[i].name == name ==> (c.head_for(name) matches Some(k) && k <= i && c.heads[k].name == name),
        c.heads.len() == 1 && (name.len() == 0 || c.heads[0].name.len() == 0) ==> c.head_for(name) == Some(0int),
{
    list::lemma_first_index(c.heads, called(name));
    if c.heads[i].name == name {
        assert(called(name)(c.heads[i]));
    }
    if let Some(k) = list::first_index(c.heads, called(name)) {
        assert(called(name)(c.heads[k]));
    }
}

/// The best of modes is a preferred one where there is one, and of those that are alike a
/// fastest.
pub proof fn law_preferred_modes_come_first(modes: Seq<Mode>, i: int)
    requires
        0 <= i < modes.len(),
    ensures
        best(modes) matches Some(m) && modes.contains(m) && (modes[i].preferred ==> m.preferred) && (modes[i].preferred
            == m.preferred ==> modes[i].refresh <= m.refresh),
    decreases modes.len(),
{
    lemma_best_is_one(modes);
    let r = modes.drop_last();
    if r.len() > 0 {
        law_preferred_modes_come_first(r, if i < r.len() { i } else { 0 });
    }
}

/// A request is carried out once the screen shows its output at the size that was asked
/// for.
pub proof fn law_settled_is_the_requested_size(a: ActiveView, screen: ScreenView, i: int)
    requires
        a.req.wl_name != 0,
        0 <= i < screen.outputs.len(),
        screen.outputs[i].wl_name == a.req.wl_name,
        forall|k: int| 0 <= k < i ==> (#[trigger] screen.outputs[k]).wl_name != a.req.wl_name,
    ensures
        a.settled(screen) <==> screen.outputs[i].width == a.req.width && screen.outputs[i].height == a.req.height,
{
    let n = a.req.wl_name;
    assert forall|k: int| 0 <= k < i implies !randr::mirrors(n)(#[trigger] screen.outputs[k]) by {
        assert(screen.outputs[k].wl_name != n);
    }
    list::lemma_first_index_is(screen.outputs, randr::mirrors(n), i);
}

/// What is said of a head is noted of that head, and of no other.
pub proof fn law_heads_are_as_told(c: OutputConfigView, i: int, event: HeadEvent, j: int)
    requires
        0 <= i < c.heads.len(),
        0 <= j < c.heads.len(),
        i != j,
        forall|k: int| 0 <= k < i ==> (#[trigger] c.heads[k]).id != c.heads[i].id,
    ensures
        ({
            let d = c.head_told(c.heads[i].id, event);
            &&& d.heads.len() == c.heads.len()
            &&& d.heads[i].id == c.heads[i].id
            &&& event matches HeadEvent::Name(n) ==> d.heads[i].name == n@ && d.heads[i].enabled == c.heads[i].enabled
            &&& event matches HeadEvent::Enabled(e) ==> d.heads[i].enabled == e && d.heads[i].name == c.heads[i].name
            &&& event matches HeadEvent::Mode(m) ==> d.heads[i].modes.len() == c.heads[i].modes.len() + 1
                && d.heads[i].modes.last().id == m
            &&& d.heads[j] == c.heads[j]
        }),
{
    let id = c.heads[i].id;
    assert forall|k: int| 0 <= k < i implies !head_is(id)(#[trigger] c.heads[k]) by {
        assert(c.heads[k].id != id);
    }
    list::lemma_first_index_is(c.heads, head_is(id), i);
}

/// What is said of a mode is noted of that mode of the head that has it.
pub proof fn law_modes_are_as_told(c: OutputConfigView, i: int, k: int, event: ModeEvent)
    requires
        0 <= i < c.heads.len(),
        0 <= k < c.heads[i].modes.len(),
        forall|h: int| 0 <= h < i ==> !owns(c.heads[i].modes[k].id)(#[trigger] c.heads[h]),
        forall|l: int| 0 <= l < k ==> (#[trigger] c.heads[i].modes[l]).id != c.heads[i].modes[k].id,
    ensures
        ({
            let m = c.heads[i].modes[k];
            let n = c.mode_told(m.id, event).heads[i].modes[k];
            &&& n.id == m.id
            &&& event matches ModeEvent::Size { width, height } ==> n.width == width && n.height == height && n.refresh
                == m.refresh && n.preferred == m.preferred
            &&& event matches ModeEvent::Refresh(r) ==> n.refresh == r && n.width == m.width && n.height == m.height
            &&& event matches ModeEvent::Preferred ==> n.preferred && n.width == m.width && n.height == m.height
        }),
{
    let id = c.heads[i].modes[k].id;
    assert forall|l: int| 0 <= l < k implies !mode_is(id)(#[trigger] c.heads[i].modes[l]) by {
        assert(c.heads[i].modes[l].id != id);
    }
    list::lemma_first_index_is(c.heads[i].modes, mode_is(id), k);
    assert(owns(id)(c.heads[i]));
    list::lemma_first_index_is(c.heads, owns(id), i);
}

/// A mode that is gone is no mode of its head any more.
pub proof fn law_gone_modes_are_forgotten(c: OutputConfigView, i: int, mode: u32)
    requires
        0 <= i < c.heads.len(),
        owns(mode)(c.heads[i]),
        forall|h: int| 0 <= h < i ==> !owns(mode)(#[trigger] c.heads[h]),
    ensures
        !owns(mode)(c.mode_gone(mode).heads[i]),
{
    list::lemma_first_index_is(c.heads, owns(mode), i);
    let left = list::only(c.heads[i].modes, mode_is_not(mode));
    list::lemma_only_elements(c.heads[i].modes, mode_is_not(mode));
    assert forall|k: int| 0 <= k < left.len() implies !mode_is(mode)(#[trigger] left[k]) by {
        assert(mode_is_not(mode)(left[k]));
    }
    list::lemma_first_index_none(left, mode_is(mode));
}

} // verus!
