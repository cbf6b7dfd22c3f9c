//! Output tracking: accumulates what the compositor says of each output and, on every
//! `done`, recomputes the virtual-screen layout that drives the RandR model, the
//! framebuffer size, the capture positions and the input remap.

use crate::bridge::server;
use crate::bridge::server::{Server, ServerView};
use crate::bridge::x11::randr;
use crate::bridge::x11::randr::ScreenView;
use crate::util::geometry;
use crate::util::list;
use crate::util::transform::Transform;
use vstd::prelude::*;

verus! {

/// One output's events, accumulated until its `done`. Wayland delivers geometry
/// piecemeal across two protocols, so nothing here is trustworthy mid-batch.
pub struct OutputAcc {
    /// `wl_output` geometry position, a scale-1 fallback.
    pub x: i32,
    pub y: i32,
    pub transform: Transform,
    /// Physical mode resolution, in the panel's own orientation.
    pub width: i32,
    pub height: i32,
    pub refresh_mhz: i32,
    /// Integer scale from `wl_output`, 0 if unset. Only approximates the logical size
    /// when xdg-output is missing; xdg-output is preferred because it reports the true,
    /// possibly fractional, size.
    pub scale: i32,
    /// Logical position and size from xdg-output, if they arrived.
    pub logical_pos: Option<(i32, i32)>,
    pub logical_size: Option<(i32, i32)>,
    pub name: Vec<u8>,
}

/// What the compositor says of an output.
pub enum OutputEvent {
    Geometry { x: i32, y: i32, transform: Transform },
    Mode { current: bool, width: i32, height: i32, refresh: i32 },
    Scale(i32),
    Name(Vec<u8>),
    LogicalPosition { x: i32, y: i32 },
    LogicalSize { width: i32, height: i32 },
}

/// An output as it takes its place on the screen.
#[derive(Clone, Copy, PartialEq, Eq, Structural, Debug)]
pub struct Placement {
    pub lx: i32,
    pub ly: i32,
    pub lw: i32,
    pub lh: i32,
    pub width: u16,
    pub height: u16,
    pub refresh_mhz: u32,
}

impl Default for OutputAcc {
    fn default() -> (a: Self)
        ensures
            a.is_new(),
    {
        OutputAcc {
            x: 0,
            y: 0,
            transform: Transform::Normal,
            width: 0,
            height: 0,
            refresh_mhz: 0,
            scale: 0,
            logical_pos: None,
            logical_size: None,
            name: Vec::new(),
        }
    }
}

impl OutputAcc {
    /// Nothing has been heard of the output.
    pub open spec fn is_new(self) -> bool {
        &&& self.x == 0 && self.y == 0
        &&& self.transform == Transform::Normal
        &&& self.width == 0 && self.height == 0 && self.refresh_mhz == 0
        &&& self.scale == 0
        &&& self.logical_pos is None && self.logical_size is None
        &&& self.name@ == Seq::<u8>::empty()
    }

    /// Takes note of what the compositor says. Of the modes only the current one counts.
    pub fn event(&mut self, event: OutputEvent)
        ensures
            match event {
                OutputEvent::Geometry { x, y, transform } => *final(self) == (OutputAcc {
                    x,
                    y,
                    transform,
                    ..*old(self)
                }),
                OutputEvent::Mode { current, width, height, refresh } => *final(self) == (if current {
                    OutputAcc { width, height, refresh_mhz: refresh, ..*old(self) }
                } else {
                    *old(self)
                }),
                OutputEvent::Scale(scale) => *final(self) == (OutputAcc { scale, ..*old(self) }),
                OutputEvent::Name(name) => *final(self) == (OutputAcc { name, ..*old(self) }),
                OutputEvent::LogicalPosition { x, y } => *final(self) == (OutputAcc {
                    logical_pos: Some((x, y)),
                    ..*old(self)
                }),
                OutputEvent::LogicalSize { width, height } => *final(self) == (OutputAcc {
                    logical_size: Some((width, height)),
                    ..*old(self)
                }),
            },
    {
        match event {
            OutputEvent::Geometry { x, y, transform } => {
                self.x = x;
                self.y = y;
                self.transform = transform;
            },
            OutputEvent::Mode { current, width, height, refresh } => {
                if current {
                    self.width = width;
                    self.height = height;
                    self.refresh_mhz = refresh;
                }
            },
            OutputEvent::Scale(scale) => {
                self.scale = scale;
            },
            OutputEvent::Name(name) => {
                self.name = name;
            },
            OutputEvent::LogicalPosition { x, y } => {
                self.logical_pos = Some((x, y));
            },
            OutputEvent::LogicalSize { width, height } => {
                self.logical_size = Some((width, height));
            },
        }
    }

    /// Where the output goes and how large it is, once it has a mode. The logical
    /// rectangle drives the layout topology, so xdg-output is preferred, which is
    /// accurate under fractional scaling. Falling back to the `wl_output` geometry and
    /// mode/scale is correct for unscaled and integer-scaled outputs.
    pub open spec fn placed(self) -> Option<Placement> {
        if self.width <= 0 || self.height <= 0 {
            None
        } else {
            let (w, h) = self.transform.size_of(self.width as int, self.height as int);
            let scale = geometry::max_of(self.scale as int, 1);
            let (lx, ly) = match self.logical_pos {
                Some(p) => p,
                None => (self.x, self.y),
            };
            let (lw, lh) = match self.logical_size {
                Some(s) => s,
                None => ((w / scale) as i32, (h / scale) as i32),
            };
            Some(
                Placement {
                    lx,
                    ly,
                    lw,
                    lh,
                    width: (w % 0x1_0000) as u16,
                    height: (h % 0x1_0000) as u16,
                    refresh_mhz: geometry::max_of(self.refresh_mhz as int, 0) as u32,
                },
            )
        }
    }

    /// Where the output goes and how large it is, once it has a mode.
    pub fn placement(&self) -> (r: Option<Placement>)
        ensures
            r == self.placed(),
    {
        if self.width <= 0 || self.height <= 0 {
            return None;
        }
        let (w, h) = self.transform.size(self.width as u32, self.height as u32);
        let scale: u32 = if self.scale > 1 { self.scale as u32 } else { 1 };
        let (lx, ly) = match self.logical_pos {
            Some(p) => p,
            None => (self.x, self.y),
        };
        assert(w / scale <= w) by (nonlinear_arith)
            requires
                scale >= 1,
                w >= 0,
        ;
        assert(h / scale <= h) by (nonlinear_arith)
            requires
                scale >= 1,
                h >= 0,
        ;
        let (lw, lh) = match self.logical_size {
            Some(s) => s,
            None => ((w / scale) as i32, (h / scale) as i32),
        };
        Some(
            Placement {
                lx,
                ly,
                lw,
                lh,
                width: (w % 0x1_0000) as u16,
                height: (h % 0x1_0000) as u16,
                refresh_mhz: if self.refresh_mhz > 0 { self.refresh_mhz as u32 } else { 0 },
            },
        )
    }
}

/// The outputs, by the names of their globals.
pub struct Outputs {
    pub accs: Vec<(u32, OutputAcc)>,
}

pub open spec fn output_is(wl_name: u32) -> spec_fn((u32, OutputAcc)) -> bool {
    |e: (u32, OutputAcc)| e.0 == wl_name
}

/// What has been heard of an output.
pub open spec fn heard_of(accs: Seq<(u32, OutputAcc)>, wl_name: u32) -> Option<OutputAcc> {
    match list::first_index(accs, output_is(wl_name)) {
        Some(i) => Some(accs[i].1),
        None => None,
    }
}

impl Outputs {
    pub fn new() -> (o: Self)
        ensures
            o.accs@.len() == 0,
    {
        Outputs { accs: Vec::new() }
    }

    fn find(&self, wl_name: u32) -> (r: Option<usize>)
        ensures
            match r {
                Some(i) => i < self.accs@.len() && list::first_index(self.accs@, output_is(wl_name)) == Some(i as int),
                None => list::first_index(self.accs@, output_is(wl_name)) is None,
            },
    {
        let mut i: usize = 0;
        while i < self.accs.len()
            invariant
                i <= self.accs.len(),
                forall|j: int| 0 <= j < i ==> !output_is(wl_name)(#[trigger] self.accs@[j]),
            decreases self.accs.len() - i,
        {
            if self.accs[i].0 == wl_name {
                proof {
                    list::lemma_first_index_is(self.accs@, output_is(wl_name), i as int);
                }
                return Some(i);
            }
            i += 1;
        }
        proof {
            list::lemma_first_index_none(self.accs@, output_is(wl_name));
        }
        None
    }

    /// What has been heard of an output.
    pub fn get(&self, wl_name: u32) -> (r: Option<&OutputAcc>)
        ensures
            match r {
                Some(a) => heard_of(self.accs@, wl_name) == Some(*a),
                None => heard_of(self.accs@, wl_name) is None,
            },
    {
        match self.find(wl_name) {
            Some(i) => Some(&self.accs[i].1),
            None => None,
        }
    }

    /// An output appeared. One that is there already stays as it is.
    pub fn announced(&mut self, wl_name: u32)
        ensures
            match heard_of(old(self).accs@, wl_name) {
                Some(_) => *final(self) == *old(self),
                None => exists|a: OutputAcc| #[trigger]
                    a.is_new() && final(self).accs@ == old(self).accs@.push((wl_name, a)),
            },
    {
        if self.find(wl_name).is_none() {
            let acc = OutputAcc::default();
            let ghost a = acc;
            self.accs.push((wl_name, acc));
            assert(a.is_new() && self.accs@ == old(self).accs@.push((wl_name, a)));
        }
    }

    /// What has been heard of an output, to add to.
    pub fn get_mut(&mut self, wl_name: u32) -> (r: Option<&mut OutputAcc>)
        ensures
            match r {
                Some(a) => {
                    &&& list::first_index(old(self).accs@, output_is(wl_name)) matches Some(i) && *a == old(
                        self,
                    ).accs@[i].1 && final(self).accs@ == old(self).accs@.update(i, (old(self).accs@[i].0, *final(a)))
                },
                None => heard_of(old(self).accs@, wl_name) is None && *final(self) == *old(self),
            },
    {
        match self.find(wl_name) {
            Some(i) => Some(&mut self.accs[i].1),
            None => None,
        }
    }

    /// Forgets an output; returns whether it was there.
    pub fn forget(&mut self, wl_name: u32) -> (there: bool)
        ensures
            there == heard_of(old(self).accs@, wl_name) is Some,
            final(self).accs@ == (match list::first_index(old(self).accs@, output_is(wl_name)) {
                Some(i) => old(self).accs@.remove(i),
                None => old(self).accs@,
            }),
    {
        match self.find(wl_name) {
            Some(i) => {
                let _ = self.accs.remove(i);
                true
            },
            None => false,
        }
    }
}

/// What became of an output's `done`.
#[derive(Clone, Copy, PartialEq, Eq, Structural, Debug)]
pub enum Applied {
    /// It has no mode yet.
    Incomplete,
    /// There are no ids left for modes and outputs.
    Exhausted,
    /// It is on the screen, and whether that changed anything.
    Done { changed: bool },
}

/// The screen with an output at its place.
pub open spec fn with_output_placed(s: ScreenView, wl_name: u32, name: Seq<u8>, p: Placement) -> ScreenView {
    s.synced(wl_name, name, p.lx, p.ly, p.lw, p.lh, p.width, p.height, p.refresh_mhz)
}

/// The screen without an output.
pub open spec fn without_output(s: ScreenView, wl_name: u32) -> ScreenView {
    let rest = list::only(s.outputs, randr::not_mirroring(wl_name));
    if rest.len() != s.outputs.len() {
        s.without_output(wl_name)
    } else {
        s
    }
}

impl Server {
    /// Puts an output on the screen as its events say. A relayout can shift other outputs
    /// too, so what is derived from the screen is refreshed whole; clients are told if
    /// anything changed.
    pub fn apply_output(&mut self, wl_name: u32, acc: &OutputAcc) -> (r: Applied)
        requires
            old(self).wf(),
        ensures
            final(self).wf(),
            match acc.placed() {
                None => r == Applied::Incomplete && *final(self) == *old(self),
                Some(p) => if old(self)@.screen.next_id + 3 > u32::MAX {
                    r == Applied::Exhausted && *final(self) == *old(self)
                } else {
                    let s = with_output_placed(old(self)@.screen, wl_name, acc.name@, p);
                    let changed = old(self)@.screen.sync_changes(wl_name, p.lx, p.ly, p.lw, p.lh, p.width, p.height);
                    &&& r == (Applied::Done { changed })
                    &&& final(self)@ == (ServerView { screen: s, ..old(self)@ }).with_screen_pushed(changed)
                    &&& server::resized(old(self).framebuffer, final(self).framebuffer, s.width, s.height)
                },
            },
    {
        let p = match acc.placement() {
            Some(p) => p,
            None => {
                return Applied::Incomplete;
            },
        };
        if self.screen.next_id > u32::MAX - 3 {
            return Applied::Exhausted;
        }
        let changed = self.screen.sync_wayland_output(
            wl_name,
            acc.name.as_slice(),
            p.lx,
            p.ly,
            p.lw,
            p.lh,
            p.width,
            p.height,
            p.refresh_mhz,
        );
        self.sync_screen(changed);
        Applied::Done { changed }
    }

    /// Takes an output off the screen. That can shrink the screen and shift the rest;
    /// clients are told if anything changed.
    pub fn remove_output(&mut self, wl_name: u32) -> (changed: bool)
        requires
            old(self).wf(),
        ensures
            final(self).wf(),
            changed == (list::only(old(self)@.screen.outputs, randr::not_mirroring(wl_name)).len()
                != old(self)@.screen.outputs.len()),
            final(self)@ == (ServerView {
                screen: without_output(old(self)@.screen, wl_name),
                ..old(self)@
            }).with_screen_pushed(changed),
            server::resized(
                old(self).framebuffer,
                final(self).framebuffer,
                without_output(old(self)@.screen, wl_name).width,
                without_output(old(self)@.screen, wl_name).height,
            ),
    {
        let changed = self.screen.remove_wayland_output(wl_name);
        self.sync_screen(changed);
        changed
    }
}

/// An unscaled output without xdg-output is as large logically as it is physically.
pub proof fn law_unscaled_outputs_keep_their_size(a: OutputAcc)
    requires
        a.width > 0,
        a.height > 0,
        a.scale <= 1,
        a.logical_size is None,
        a.transform == Transform::Normal,
    ensures
        a.placed() matches Some(p) && p.lw == a.width && p.lh == a.height,
{
    assert(geometry::max_of(a.scale as int, 1) == 1);
    assert(a.width as int / 1 == a.width);
    assert(a.height as int / 1 == a.height);
}

/// A quarter turn makes a wide output tall.
pub proof fn law_turned_outputs_trade_sides(a: OutputAcc)
    requires
        0 < a.width <= 0xffff,
        0 < a.height <= 0xffff,
        a.transform.is_quarter_turn(),
    ensures
        a.placed() matches Some(p) && p.width == a.height && p.height == a.width,
{
}

/// An output is where xdg-output has it, else where its geometry says; it is as large
/// logically as xdg-output has it, else its size divided by its scale, rounded down. Its
/// width goes with its horizontal place and its height with its vertical one.
pub proof fn law_output_is_placed_as_reported(a: OutputAcc)
    requires
        0 < a.width <= 0xffff,
        0 < a.height <= 0xffff,
    ensures
        a.placed() matches Some(p) && {
            &&& a.logical_pos matches Some((x, y)) ==> p.lx == x && p.ly == y
            &&& a.logical_pos is None ==> p.lx == a.x && p.ly == a.y
            &&& a.logical_size matches Some((w, h)) ==> p.lw == w && p.lh == h
            &&& a.logical_size is None && a.scale >= 1 ==> p.lw * a.scale <= p.width < (p.lw + 1) * a.scale && p.lh * a.scale
                <= p.height < (p.lh + 1) * a.scale
            &&& a.transform == Transform::Normal ==> p.width == a.width && p.height == a.height
            &&& a.refresh_mhz >= 0 ==> p.refresh_mhz == a.refresh_mhz
        },
{
    let (w, h) = a.transform.size_of(a.width as int, a.height as int);
    if a.scale >= 1 {
        lemma_scaled_down(w, a.scale as int);
        lemma_scaled_down(h, a.scale as int);
    }
}

proof fn lemma_scaled_down(w: int, s: int)
    by (nonlinear_arith)
    requires
        s >= 1,
        0 <= w,
    ensures
        (w / s) * s <= w < (w / s + 1) * s,
        0 <= w / s <= w,
{
}

/// An output of which no size is known yet is not placed.
pub proof fn law_outputs_without_a_size_wait(a: OutputAcc)
    ensures
        a.placed() is None <==> a.width <= 0 || a.height <= 0,
{
}

} // verus!
