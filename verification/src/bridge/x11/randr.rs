//! The RandR model: outputs, CRTCs and modes of a screen that Wayland outputs
//! back.

use crate::bridge::x11::RANDR_OUTPUT_BASE;
use crate::util::geometry;
use crate::util::layout;
use crate::util::layout::OutputRect;
use crate::util::list;
use vstd::prelude::*;

verus! {

/// Largest screen we will accept, matching the range reported by
/// `RRGetScreenSizeRange`. Screen bounds feed the framebuffer allocation, and a
/// client picks the screen size, so without a bound a bad request could ask us
/// to allocate an absurd framebuffer.
pub const MAX_SCREEN: u16 = 16384;

/// What RandR says of a mode.
#[derive(Clone, Copy, PartialEq, Eq, Structural, Debug)]
pub struct ModeInfo {
    pub id: u32,
    pub width: u16,
    pub height: u16,
    pub dot_clock: u32,
    pub hsync_start: u16,
    pub hsync_end: u16,
    pub htotal: u16,
    pub hskew: u16,
    pub vsync_start: u16,
    pub vsync_end: u16,
    pub vtotal: u16,
    pub name_len: u16,
    pub mode_flags: u32,
}

/// A mode for an output.
pub struct Mode {
    pub info: ModeInfo,
    pub name: Vec<u8>,
    /// Allocated by us for an output's native resolution, and so freed once no
    /// output lists it; a client-created mode (`RandrCreateMode`) is the
    /// client's to destroy.
    pub ours: bool,
}

/// A mode, with its name as a sequence.
#[verifier::ext_equal]
pub struct ModeView {
    pub info: ModeInfo,
    pub name: Seq<u8>,
    pub ours: bool,
}

impl View for Mode {
    type V = ModeView;

    open spec fn view(&self) -> ModeView {
        ModeView { info: self.info, name: self.name@, ours: self.ours }
    }
}

/// An output positioned on a screen.
pub struct Output {
    pub output_id: u32,
    pub crtc_id: u32,
    pub name: Vec<u8>,
    /// CRTC position in the virtual screen, in **physical** pixels. For Wayland
    /// outputs this is computed from the logical layout so that scaled outputs'
    /// native-resolution buffers tile without overlap. The width and height are
    /// the physical mode.
    pub x: i16,
    pub y: i16,
    pub width: u16,
    pub height: u16,
    /// The output's rectangle in the compositor's **logical** coordinate space
    /// (from xdg-output, or wl_output geometry + mode/scale as a fallback). Used
    /// only to reconstruct the relative arrangement; physical positions are
    /// derived from it.
    pub lx: i32,
    pub ly: i32,
    pub lw: i32,
    pub lh: i32,
    /// 0 is disabled.
    pub mode: u32,
    pub mode_ids: Vec<u32>,
    pub mm_width: u32,
    pub mm_height: u32,
    /// The Wayland object, or 0 if there is none.
    pub wl_name: u32,
    pub connected: bool,
}

/// An output, with its lists as sequences.
#[verifier::ext_equal]
pub struct OutputView {
    pub output_id: u32,
    pub crtc_id: u32,
    pub name: Seq<u8>,
    pub x: i16,
    pub y: i16,
    pub width: u16,
    pub height: u16,
    pub lx: i32,
    pub ly: i32,
    pub lw: i32,
    pub lh: i32,
    pub mode: u32,
    pub mode_ids: Seq<u32>,
    pub mm_width: u32,
    pub mm_height: u32,
    pub wl_name: u32,
    pub connected: bool,
}

impl View for Output {
    type V = OutputView;

    open spec fn view(&self) -> OutputView {
        OutputView {
            output_id: self.output_id,
            crtc_id: self.crtc_id,
            name: self.name@,
            x: self.x,
            y: self.y,
            width: self.width,
            height: self.height,
            lx: self.lx,
            ly: self.ly,
            lw: self.lw,
            lh: self.lh,
            mode: self.mode,
            mode_ids: self.mode_ids@,
            mm_width: self.mm_width,
            mm_height: self.mm_height,
            wl_name: self.wl_name,
            connected: self.connected,
        }
    }
}

/// A RandR screen backed by Wayland outputs.
pub struct Screen {
    pub width: u16,
    pub height: u16,
    pub modes: Vec<Mode>,
    pub outputs: Vec<Output>,
    pub next_id: u32,
    pub timestamp: u32,
    pub config_timestamp: u32,
}

/// A screen, with its lists as sequences.
#[verifier::ext_equal]
pub struct ScreenView {
    pub width: u16,
    pub height: u16,
    pub modes: Seq<ModeView>,
    pub outputs: Seq<OutputView>,
    pub next_id: int,
    pub timestamp: u32,
    pub config_timestamp: u32,
}

/// What each of the modes is.
pub open spec fn mode_views(s: Seq<Mode>) -> Seq<ModeView> {
    s.map_values(|m: Mode| m@)
}

/// What each of the outputs is.
pub open spec fn output_views(s: Seq<Output>) -> Seq<OutputView> {
    s.map_values(|o: Output| o@)
}

impl View for Screen {
    type V = ScreenView;

    open spec fn view(&self) -> ScreenView {
        ScreenView {
            width: self.width,
            height: self.height,
            modes: mode_views(self.modes@),
            outputs: output_views(self.outputs@),
            next_id: self.next_id as int,
            timestamp: self.timestamp,
            config_timestamp: self.config_timestamp,
        }
    }
}

/// The mode that has the id.
pub open spec fn mode_is(id: u32) -> spec_fn(ModeView) -> bool {
    |m: ModeView| m.info.id == id
}

/// The output that has the CRTC.
pub open spec fn crtc_is(crtc: u32) -> spec_fn(OutputView) -> bool {
    |o: OutputView| o.crtc_id == crtc
}

/// The output that has the id.
pub open spec fn output_is(id: u32) -> spec_fn(OutputView) -> bool {
    |o: OutputView| o.output_id == id
}

/// The output that mirrors the Wayland output.
pub open spec fn mirrors(wl_name: u32) -> spec_fn(OutputView) -> bool {
    |o: OutputView| o.wl_name == wl_name
}

/// The outputs that take part: connected, and not disabled.
pub open spec fn enabled() -> spec_fn(OutputView) -> bool {
    |o: OutputView| o.connected && o.mode != 0
}

/// A mode that an output lists.
pub open spec fn listed(outputs: Seq<OutputView>, id: u32) -> bool {
    exists|i: int| 0 <= i < outputs.len() && (#[trigger] outputs[i]).mode_ids.contains(id)
}

/// A mode that is a client's, or that an output lists.
pub open spec fn in_use(outputs: Seq<OutputView>) -> spec_fn(ModeView) -> bool {
    |m: ModeView| !m.ours || listed(outputs, m.info.id)
}

/// The size of the mode with the id.
pub open spec fn size_of_mode(modes: Seq<ModeView>, id: u32) -> Option<(u16, u16)> {
    match list::first_index(modes, mode_is(id)) {
        Some(i) => Some((modes[i].info.width, modes[i].info.height)),
        None => None,
    }
}

/// A mode of the size.
pub open spec fn has_size(modes: Seq<ModeView>, width: u16, height: u16) -> spec_fn(u32) -> bool {
    |id: u32| size_of_mode(modes, id) == Some((width, height))
}

/// "1280x800".
pub open spec fn size_name(width: u16, height: u16) -> Seq<u8> {
    list::decimal(width as nat) + seq![120u8] + list::decimal(height as nat)
}

/// Pixels a second: of the refresh rate in mHz, or at 60 Hz if that is not known;
/// what does not fit in 32 bits wraps.
pub open spec fn dot_clock_of(width: u16, height: u16, refresh_mhz: u32) -> int {
    if refresh_mhz > 0 {
        (width * height * refresh_mhz / 1000) % 0x1_0000_0000
    } else {
        (width * height * 60) % 0x1_0000_0000
    }
}

/// The mode that stands for what a compositor drives an output at.
pub open spec fn native_mode(id: int, width: u16, height: u16, refresh_mhz: u32) -> ModeView {
    ModeView {
        info: ModeInfo {
            id: id as u32,
            width,
            height,
            dot_clock: dot_clock_of(width, height, refresh_mhz) as u32,
            hsync_start: 0,
            hsync_end: 0,
            htotal: width,
            hskew: 0,
            vsync_start: 0,
            vsync_end: 0,
            vtotal: height,
            name_len: size_name(width, height).len() as u16,
            mode_flags: 0,
        },
        name: size_name(width, height),
        ours: true,
    }
}

/// Approximate millimeters at 96 DPI.
pub open spec fn mm_of(pixels: u16) -> u32 {
    (pixels * 254 / 960) as u32
}

/// The next count, wrapping.
pub open spec fn next_count(v: u32) -> u32 {
    if v == u32::MAX {
        0
    } else {
        (v + 1) as u32
    }
}

/// `mode_ids` with the mode in it.
pub open spec fn with_mode(ids: Seq<u32>, mode: u32) -> Seq<u32> {
    if ids.contains(mode) {
        ids
    } else {
        ids.push(mode)
    }
}

/// The native modes that are in the output's list besides `mode`.
pub open spec fn stale_for(ids: Seq<u32>, mode: u32) -> spec_fn(ModeView) -> bool {
    |m: ModeView| m.ours && m.info.id != mode && ids.contains(m.info.id)
}

/// The native modes of the size besides `mode`.
pub open spec fn native_of_size(mode: u32, width: u16, height: u16) -> spec_fn(ModeView) -> bool {
    |m: ModeView| m.ours && m.info.id != mode && m.info.width == width && m.info.height == height
}

/// The ids of the modes.
pub open spec fn ids_of(modes: Seq<ModeView>) -> Seq<u32> {
    modes.map_values(|m: ModeView| m.info.id)
}

impl ScreenView {
    /// The timestamps move on with every change of the configuration.
    pub open spec fn bumped(self) -> ScreenView {
        ScreenView {
            timestamp: next_count(self.timestamp),
            config_timestamp: next_count(self.config_timestamp),
            ..self
        }
    }

    /// A single output of the given size.
    pub open spec fn initial(width: u16, height: u16) -> ScreenView {
        ScreenView {
            width,
            height,
            timestamp: 1,
            config_timestamp: 1,
            next_id: RANDR_OUTPUT_BASE + 3,
            modes: seq![native_mode(RANDR_OUTPUT_BASE as int, width, height, 0)],
            outputs: seq![
                (OutputView {
                    output_id: (RANDR_OUTPUT_BASE + 1) as u32,
                    crtc_id: (RANDR_OUTPUT_BASE + 2) as u32,
                    name: seq![115u8, 99u8, 114u8, 101u8, 101u8, 110u8],
                    x: 0,
                    y: 0,
                    width,
                    height,
                    lx: 0,
                    ly: 0,
                    lw: width as i32,
                    lh: height as i32,
                    mode: RANDR_OUTPUT_BASE,
                    mode_ids: seq![RANDR_OUTPUT_BASE],
                    mm_width: mm_of(width),
                    mm_height: mm_of(height),
                    wl_name: 0,
                    connected: true,
                }),
            ],
        }
    }

    /// A native mode is allocated; its id is the old `next_id`.
    pub open spec fn with_native_mode(self, width: u16, height: u16, refresh_mhz: u32) -> ScreenView {
        ScreenView {
            modes: self.modes.push(native_mode(self.next_id, width, height, refresh_mhz)),
            next_id: self.next_id + 1,
            ..self
        }
    }

    /// Without the native modes that no output lists.
    pub open spec fn pruned(self) -> ScreenView {
        ScreenView { modes: list::only(self.modes, in_use(self.outputs)), ..self }
    }

    pub open spec fn with_output(self, i: int, o: OutputView) -> ScreenView {
        ScreenView { outputs: self.outputs.update(i, o), ..self }
    }

    /// The output that `p` picks out.
    pub open spec fn find(self, p: spec_fn(OutputView) -> bool) -> Option<OutputView> {
        match list::first_index(self.outputs, p) {
            Some(i) => Some(self.outputs[i]),
            None => None,
        }
    }

    /// What the outputs extend to on one axis, saturating at 16 bits.
    pub open spec fn extent_x(outputs: Seq<OutputView>) -> int
        decreases outputs.len(),
    {
        if outputs.len() == 0 {
            0
        } else {
            let o = outputs.last();
            let rest = Self::extent_x(outputs.drop_last());
            if enabled()(o) {
                geometry::max_of(
                    rest,
                    geometry::min_of(geometry::max_of(o.x as int, 0) + o.width, u16::MAX as int),
                )
            } else {
                rest
            }
        }
    }

    pub open spec fn extent_y(outputs: Seq<OutputView>) -> int
        decreases outputs.len(),
    {
        if outputs.len() == 0 {
            0
        } else {
            let o = outputs.last();
            let rest = Self::extent_y(outputs.drop_last());
            if enabled()(o) {
                geometry::max_of(
                    rest,
                    geometry::min_of(geometry::max_of(o.y as int, 0) + o.height, u16::MAX as int),
                )
            } else {
                rest
            }
        }
    }

    /// The size of the box round the enabled outputs, within what is accepted.
    pub open spec fn bounds(self) -> (u16, u16) {
        (
            layout::clamped(Self::extent_x(self.outputs), 1, MAX_SCREEN as int) as u16,
            layout::clamped(Self::extent_y(self.outputs), 1, MAX_SCREEN as int) as u16,
        )
    }

    /// With the size of the box round the outputs; a change of size counts.
    pub open spec fn rebounded(self) -> ScreenView {
        let (w, h) = self.bounds();
        if w != self.width || h != self.height {
            ScreenView { width: w, height: h, ..self }.bumped()
        } else {
            self
        }
    }

    /// With every output at the physical place that the logical layout gives it.
    pub open spec fn relaid(self) -> ScreenView {
        let px = packed(axis_x(self.outputs));
        let py = packed(axis_y(self.outputs));
        ScreenView {
            outputs: Seq::new(
                self.outputs.len(),
                |i: int|
                    OutputView {
                        x: layout::clamped(px[i], 0, i16::MAX as int) as i16,
                        y: layout::clamped(py[i], 0, i16::MAX as int) as i16,
                        ..self.outputs[i]
                    },
            ),
            ..self
        }
    }

    /// Output `i` has that logical rectangle and physical size already, under a mode
    /// of that size.
    pub open spec fn unchanged(self, i: int, lx: i32, ly: i32, lw: i32, lh: i32, width: u16, height: u16) -> bool {
        let o = self.outputs[i];
        &&& o.lx == lx && o.ly == ly && o.lw == lw && o.lh == lh
        &&& o.width == width && o.height == height
        &&& size_of_mode(self.modes, o.mode) == Some((width, height))
    }

    /// The mode for output `i` at a size, and the screen that has it: the mode that
    /// it has if that has the size, else one that it lists, else a new native one.
    pub open spec fn mode_for(self, i: int, width: u16, height: u16, refresh_mhz: u32) -> (ScreenView, u32) {
        let o = self.outputs[i];
        if size_of_mode(self.modes, o.mode) == Some((width, height)) {
            (self, o.mode)
        } else {
            match list::first_index(o.mode_ids, has_size(self.modes, width, height)) {
                Some(k) => (self, o.mode_ids[k]),
                None => (self.with_native_mode(width, height, refresh_mhz), self.next_id as u32),
            }
        }
    }

    /// Output `i` without the native modes that its list has besides `mode`; a
    /// native mode only ever stands for what the compositor is driving now.
    pub open spec fn without_stale(self, i: int, mode: u32) -> ScreenView {
        let o = self.outputs[i];
        let stale = ids_of(list::only(self.modes, stale_for(o.mode_ids, mode)));
        if stale.len() == 0 {
            self
        } else {
            self.with_output(i, OutputView { mode_ids: list::only(o.mode_ids, list::is_not_in(stale)), ..o }).pruned()
        }
    }

    /// Output `i` as the compositor now drives it.
    pub open spec fn driven(
        self,
        i: int,
        lx: i32,
        ly: i32,
        lw: i32,
        lh: i32,
        width: u16,
        height: u16,
        refresh_mhz: u32,
    ) -> ScreenView {
        let (s, mode) = self.mode_for(i, width, height, refresh_mhz);
        let o = self.outputs[i];
        s.with_output(
            i,
            OutputView { lx, ly, lw, lh, width, height, mode, mode_ids: with_mode(o.mode_ids, mode), ..o },
        ).without_stale(i, mode)
    }

    /// A new output mirrors the Wayland output; the synthetic one goes.
    pub open spec fn joined(
        self,
        wl_name: u32,
        name: Seq<u8>,
        lx: i32,
        ly: i32,
        lw: i32,
        lh: i32,
        width: u16,
        height: u16,
        refresh_mhz: u32,
    ) -> ScreenView {
        let s = self.with_native_mode(width, height, refresh_mhz);
        let mode = self.next_id as u32;
        let o = OutputView {
            output_id: (self.next_id + 1) as u32,
            crtc_id: (self.next_id + 2) as u32,
            name: if name.len() == 0 {
                output_prefix() + list::decimal(wl_name as nat)
            } else {
                name
            },
            x: 0,
            y: 0,
            width,
            height,
            lx,
            ly,
            lw,
            lh,
            mode,
            mode_ids: seq![mode],
            mm_width: mm_of(width),
            mm_height: mm_of(height),
            wl_name,
            connected: true,
        };
        ScreenView {
            next_id: self.next_id + 3,
            outputs: list::only(self.outputs.push(o), not_mirroring(0)),
            ..s
        }.pruned()
    }

    /// What a report of the compositor on one of its outputs makes of the screen.
    pub open spec fn synced(
        self,
        wl_name: u32,
        name: Seq<u8>,
        lx: i32,
        ly: i32,
        lw: i32,
        lh: i32,
        width: u16,
        height: u16,
        refresh_mhz: u32,
    ) -> ScreenView {
        match list::first_index(self.outputs, mirrors(wl_name)) {
            Some(i) => if self.unchanged(i, lx, ly, lw, lh, width, height) {
                self
            } else {
                self.driven(i, lx, ly, lw, lh, width, height, refresh_mhz).relaid().rebounded()
            },
            None => self.joined(wl_name, name, lx, ly, lw, lh, width, height, refresh_mhz).relaid().rebounded(),
        }
    }

    /// Without the output that mirrors the Wayland output, the others laid out anew.
    pub open spec fn without_output(self, wl_name: u32) -> ScreenView {
        ScreenView { outputs: list::only(self.outputs, not_mirroring(wl_name)), ..self }.pruned().relaid().rebounded()
    }

    /// Whether such a report changes anything.
    pub open spec fn sync_changes(self, wl_name: u32, lx: i32, ly: i32, lw: i32, lh: i32, width: u16, height: u16) -> bool {
        match list::first_index(self.outputs, mirrors(wl_name)) {
            Some(i) => !self.unchanged(i, lx, ly, lw, lh, width, height),
            None => true,
        }
    }
}

impl ScreenView {
    /// With a mode listed by an output, if it is known.
    pub open spec fn listing(self, output: u32, mode: u32) -> ScreenView {
        match list::first_index(self.outputs, output_is(output)) {
            Some(i) => {
                let o = self.outputs[i];
                self.with_output(i, OutputView { mode_ids: with_mode(o.mode_ids, mode), ..o })
            },
            None => self,
        }
    }

    /// With a mode no longer listed by an output, if it is known.
    pub open spec fn delisting(self, output: u32, mode: u32) -> ScreenView {
        match list::first_index(self.outputs, output_is(output)) {
            Some(i) => {
                let o = self.outputs[i];
                self.with_output(
                    i,
                    OutputView { mode_ids: list::only(o.mode_ids, list::is_not_in(seq![mode])), ..o },
                )
            },
            None => self,
        }
    }

    /// With a mode gone, and listed by no output.
    pub open spec fn without_mode(self, mode: u32) -> ScreenView {
        ScreenView {
            modes: list::only(self.modes, mode_is_not(mode)),
            outputs: self.outputs.map_values(unlisted(mode)),
            ..self
        }
    }

    /// Of another size, within what is supported.
    pub open spec fn of_size(self, width: u16, height: u16) -> ScreenView {
        ScreenView {
            width: layout::clamped(width as int, 1, MAX_SCREEN as int) as u16,
            height: layout::clamped(height as int, 1, MAX_SCREEN as int) as u16,
            ..self
        }.bumped()
    }

    /// With the CRTC at a place and in a mode, 0 to disable it; its size follows the
    /// mode, that of the screen does not.
    pub open spec fn with_crtc(self, i: int, x: i16, y: i16, mode: u32) -> ScreenView {
        let o = self.outputs[i];
        let (width, height) = match size_of_mode(self.modes, mode) {
            Some(s) if mode != 0 => s,
            _ => (o.width, o.height),
        };
        self.with_output(i, OutputView { mode, x, y, width, height, ..o }).bumped()
    }

    /// The first `n` outputs put back to a mode of the size that they have, and
    /// whether one was not in such a mode.
    pub open spec fn put_back(self, n: int) -> (ScreenView, bool)
        decreases n,
    {
        if n <= 0 {
            (self, false)
        } else {
            let (s, changed) = self.put_back(n - 1);
            let o = s.outputs[n - 1];
            if o.wl_name == 0 || size_of_mode(s.modes, o.mode) == Some((o.width, o.height)) {
                (s, changed)
            } else {
                let (t, mode) = s.mode_for(n - 1, o.width, o.height, 0);
                (t.with_output(n - 1, OutputView { mode, mode_ids: with_mode(o.mode_ids, mode), ..o }), true)
            }
        }
    }

    /// With every Wayland output in a mode of the size that the compositor drives it
    /// at, and the screen of the size of their bounds.
    pub open spec fn restored(self) -> ScreenView {
        let (s, changed) = self.put_back(self.outputs.len() as int);
        let t = s.relaid();
        if changed && t.rebounded() == t {
            t.bumped()
        } else {
            t.rebounded()
        }
    }

    /// Whether that changes a mode, the place of an output or the screen's size.
    pub open spec fn restore_changes(self) -> bool {
        let (s, changed) = self.put_back(self.outputs.len() as int);
        ||| changed
        ||| moved(s.outputs, s.relaid().outputs)
        ||| s.relaid().bounds() != (self.width, self.height)
    }

    /// With the CRTC in the client's mode in place of the native one of its size.
    pub open spec fn adopted(self, crtc: u32, mode: u32) -> ScreenView {
        match (size_of_mode(self.modes, mode), list::first_index(self.outputs, crtc_is(crtc))) {
            (Some((w, h)), Some(i)) => {
                let o = self.outputs[i];
                if o.width == w && o.height == h && o.mode != mode {
                    let native = ids_of(list::only(self.modes, native_of_size(mode, w, h)));
                    self.with_output(
                        i,
                        OutputView {
                            mode,
                            mode_ids: list::only(with_mode(o.mode_ids, mode), list::is_not_in(native)),
                            ..o
                        },
                    ).pruned().bumped()
                } else {
                    self
                }
            },
            _ => self,
        }
    }
}

/// One of the outputs is at another place.
pub open spec fn moved(before: Seq<OutputView>, after: Seq<OutputView>) -> bool {
    exists|i: int|
        0 <= i < before.len() && ((#[trigger] before[i]).x != after[i].x || before[i].y != after[i].y)
}

/// Outputs that mirror a real Wayland output.
pub open spec fn is_real() -> spec_fn(OutputView) -> bool {
    |o: OutputView| o.wl_name != 0
}

/// "output-".
pub open spec fn output_prefix() -> Seq<u8> {
    seq![111u8, 117u8, 116u8, 112u8, 117u8, 116u8, 45u8]
}

/// The horizontal arrangement: each output's logical start and length and its
/// physical length.
pub open spec fn axis_x(outputs: Seq<OutputView>) -> Seq<(int, int, int)> {
    outputs.map_values(|o: OutputView| (o.lx as int, o.lw as int, o.width as int))
}

/// The vertical arrangement.
pub open spec fn axis_y(outputs: Seq<OutputView>) -> Seq<(int, int, int)> {
    outputs.map_values(|o: OutputView| (o.ly as int, o.lh as int, o.height as int))
}

/// Item `i` put into an order by logical start, behind those that start no later.
pub open spec fn placed(items: Seq<(int, int, int)>, order: Seq<int>, i: int) -> Seq<int>
    decreases order.len(),
{
    if order.len() == 0 || items[order.last()].0 <= items[i].0 {
        order.push(i)
    } else {
        placed(items, order.drop_last(), i).push(order.last())
    }
}

/// The first `n` items in the order of their logical starts; items with the same
/// start keep their order.
pub open spec fn ordered(items: Seq<(int, int, int)>, n: int) -> Seq<int>
    decreases n,
{
    if n <= 0 {
        Seq::empty()
    } else {
        placed(items, ordered(items, n - 1), n - 1)
    }
}

/// Where a logical coordinate is, given the edges that have a physical place: at its
/// own edge, else as far from the nearest edge before it as it is logically.
pub open spec fn locate(edges: Map<int, int>, at: int) -> int {
    if edges.dom().contains(at) {
        edges[at]
    } else if exists|e: int| edge_before(edges, at, e) {
        let e = choose|e: int| edge_before(edges, at, e);
        edges[e] + (at - e)
    } else {
        0
    }
}

/// `e` is the last edge before `at`.
pub open spec fn edge_before(edges: Map<int, int>, at: int, e: int) -> bool {
    edges.dom().contains(e) && e <= at && forall|d: int| #[trigger] edges.dom().contains(d) && d <= at ==> d <= e
}

/// The edges and places once an item is put down: its start is an edge at its
/// place, and its end one at its physical end, or further on if another item that
/// ends there reaches further.
pub open spec fn put_down(st: (Map<int, int>, Map<int, int>), item: (int, int, int), i: int) -> (
    Map<int, int>,
    Map<int, int>,
) {
    let px = locate(st.0, item.0);
    let edges = if st.0.dom().contains(item.0) { st.0 } else { st.0.insert(item.0, px) };
    let end = item.0 + item.1;
    let far = px + item.2;
    (
        edges.insert(
            end,
            if edges.dom().contains(end) {
                geometry::max_of(edges[end], far)
            } else {
                far
            },
        ),
        st.1.insert(i, px),
    )
}

/// The edges and places after the items of `order`.
pub open spec fn packing(items: Seq<(int, int, int)>, order: Seq<int>) -> (Map<int, int>, Map<int, int>)
    decreases order.len(),
{
    if order.len() == 0 {
        (first_edge(items), Map::empty())
    } else {
        put_down(packing(items, order.drop_last()), items[order.last()], order.last())
    }
}

/// The least logical start is at 0.
pub open spec fn first_edge(items: Seq<(int, int, int)>) -> Map<int, int> {
    match layout::least(items.map_values(|t: (int, int, int)| t.0)) {
        Some(m) => Map::empty().insert(m, 0),
        None => Map::empty(),
    }
}

/// The physical start of each item: items are put down from left to right, so that
/// one that begins where a neighbour's logical edge ended is placed where that
/// neighbour's physical edge ended. Gaps are bridged one to one.
pub open spec fn packed(items: Seq<(int, int, int)>) -> Seq<int> {
    let places = packing(items, ordered(items, items.len() as int)).1;
    Seq::new(items.len(), |i: int| places[i])
}

impl Output {
    /// Whether this output mirrors a real Wayland output (`wl_name` 0 is the
    /// synthetic default we start with before any output is known).
    pub fn is_wayland(&self) -> (b: bool)
        ensures
            b == is_real()(self@),
            b == (self.wl_name != 0),
    {
        self.wl_name != 0
    }
}

proof fn lemma_dot_clock(width: u16, height: u16, refresh: u32)
    ensures
        0 <= width * height <= 0xfffe_0001,
        0 <= width * height * refresh <= 0xfffe_0001 * 0xffff_ffff,
{
    assert(0 <= width * height <= 0xfffe_0001) by (nonlinear_arith)
        requires
            0 <= width <= 0xffff,
            0 <= height <= 0xffff,
    ;
    let p = width * height;
    assert(0 <= p * refresh <= 0xfffe_0001 * 0xffff_ffff) by (nonlinear_arith)
        requires
            0 <= p <= 0xfffe_0001,
            0 <= refresh <= 0xffff_ffff,
    ;
}

impl Mode {
    fn new(id: u32, width: u16, height: u16, refresh_mhz: u32) -> (m: Self)
        ensures
            m@ == native_mode(id as int, width, height, refresh_mhz),
    {
        let mut name: Vec<u8> = Vec::new();
        list::push_decimal(&mut name, width as u64);
        name.push(120);
        list::push_decimal(&mut name, height as u64);
        proof {
            lemma_dot_clock(width, height, refresh_mhz);
            assert(name@ =~= size_name(width, height));
        }
        let pixels: u64 = width as u64 * height as u64;
        let clock: u64 = if refresh_mhz > 0 { pixels * refresh_mhz as u64 / 1000 } else { pixels * 60 };
        let dot_clock: u32 = (clock % 0x1_0000_0000) as u32;
        let info = ModeInfo {
            id,
            width,
            height,
            dot_clock,
            hsync_start: 0,
            hsync_end: 0,
            htotal: width,
            hskew: 0,
            vsync_start: 0,
            vsync_end: 0,
            vtotal: height,
            name_len: name.len() as u16,
            mode_flags: 0,
        };
        Mode { info, name, ours: true }
    }
}

proof fn lemma_push_mode(modes: Seq<Mode>, m: Mode)
    ensures
        mode_views(modes.push(m)) == mode_views(modes).push(m@),
{
    assert(mode_views(modes.push(m)) =~= mode_views(modes).push(m@));
}

impl Screen {
    /// New ids are never in use.
    pub open spec fn wf(self) -> bool {
        ids_fresh(self@)
    }

    /// A default single output of the given size (used until Wayland outputs
    /// arrive, or if there's no compositor).
    pub fn new(width: u16, height: u16) -> (s: Self)
        ensures
            s@ == ScreenView::initial(width, height),
            s.wf(),
    {
        let mut s = Screen {
            width,
            height,
            modes: Vec::new(),
            outputs: Vec::new(),
            next_id: RANDR_OUTPUT_BASE,
            timestamp: 1,
            config_timestamp: 1,
        };
        let mode: u32 = s.alloc_mode(width, height, 0);
        let output_id: u32 = s.alloc_id();
        let crtc_id: u32 = s.alloc_id();
        let o = Output {
            output_id,
            crtc_id,
            name: vec![115u8, 99u8, 114u8, 101u8, 101u8, 110u8],
            x: 0,
            y: 0,
            width,
            height,
            lx: 0,
            ly: 0,
            lw: width as i32,
            lh: height as i32,
            mode,
            mode_ids: vec![mode],
            mm_width: geometry::mm(width),
            mm_height: geometry::mm(height),
            wl_name: 0,
            connected: true,
        };
        let ghost oo = o@;
        assert(o.name@ =~= seq![115u8, 99u8, 114u8, 101u8, 101u8, 110u8]);
        assert(o.mode_ids@ =~= seq![RANDR_OUTPUT_BASE]);
        s.outputs.push(o);
        assert(s@.outputs =~= seq![oo]);
        assert(s@.modes =~= seq![native_mode(RANDR_OUTPUT_BASE as int, width, height, 0)]);
        s
    }

    fn alloc_id(&mut self) -> (id: u32)
        requires
            old(self).next_id < u32::MAX,
        ensures
            id == old(self).next_id,
            final(self)@ == (ScreenView { next_id: old(self).next_id + 1, ..old(self)@ }),
            final(self).outputs == old(self).outputs,
            final(self).modes == old(self).modes,
    {
        let id: u32 = self.next_id;
        self.next_id = id + 1;
        id
    }

    /// A mode of ours for a native resolution.
    pub fn alloc_mode(&mut self, width: u16, height: u16, refresh_mhz: u32) -> (id: u32)
        requires
            old(self).next_id < u32::MAX,
        ensures
            old(self).wf() ==> final(self).wf(),
            id == old(self).next_id,
            final(self)@ == old(self)@.with_native_mode(width, height, refresh_mhz),
            final(self).outputs == old(self).outputs,
    {
        let id: u32 = self.alloc_id();
        let m = Mode::new(id, width, height, refresh_mhz);
        proof {
            lemma_push_mode(self.modes@, m);
        }
        self.modes.push(m);
        id
    }

    /// A mode of a client's.
    pub fn create_mode(&mut self, info: ModeInfo, name: Vec<u8>) -> (id: u32)
        requires
            old(self).next_id < u32::MAX,
        ensures
            old(self).wf() ==> final(self).wf(),
            id == old(self).next_id,
            final(self)@ == (ScreenView {
                next_id: old(self).next_id + 1,
                modes: old(self)@.modes.push(
                    ModeView {
                        info: ModeInfo { id, name_len: (name@.len() % 0x1_0000) as u16, ..info },
                        name: name@,
                        ours: false,
                    },
                ),
                ..old(self)@
            }),
    {
        let id: u32 = self.alloc_id();
        let mut info = info;
        info.id = id;
        info.name_len = (name.len() % 0x1_0000) as u16;
        let m = Mode { info, name, ours: false };
        proof {
            lemma_push_mode(self.modes@, m);
        }
        self.modes.push(m);
        id
    }

    /// Drops the native modes no output lists any more, after an output's mode
    /// changed or the output went away; without this every resolution change
    /// leaves a mode behind forever.
    fn prune_modes(&mut self)
        ensures
            final(self)@ == old(self)@.pruned(),
            final(self).outputs == old(self).outputs,
    {
        let mut keep: Vec<bool> = Vec::new();
        let mut i: usize = 0;
        while i < self.modes.len()
            invariant
                i <= self.modes.len(),
                keep@.len() == i,
                forall|j: int|
                    0 <= j < i ==> #[trigger] keep@[j] == in_use(output_views(self.outputs@))(self.modes@[j]@),
            decreases self.modes.len() - i,
        {
            let id: u32 = self.modes[i].info.id;
            keep.push(!self.modes[i].ours || self.lists(id));
            i += 1;
        }
        let ghost m0 = self.modes@;
        list::retain(&mut self.modes, &keep);
        proof {
            list::lemma_kept_is_only(m0, |m: Mode| m@, keep@, in_use(output_views(self.outputs@)));
        }
    }

    /// Whether an output lists the mode.
    fn lists(&self, id: u32) -> (b: bool)
        ensures
            b == listed(output_views(self.outputs@), id),
    {
        let mut i: usize = 0;
        while i < self.outputs.len()
            invariant
                i <= self.outputs.len(),
                forall|j: int| 0 <= j < i ==> !(#[trigger] output_views(self.outputs@)[j]).mode_ids.contains(id),
            decreases self.outputs.len() - i,
        {
            if list::holds(&self.outputs[i].mode_ids, id) {
                assert(output_views(self.outputs@)[i as int].mode_ids.contains(id));
                return true;
            }
            i += 1;
        }
        false
    }

    /// The index of the output that has the id.
    fn output_index(&self, output: u32) -> (r: Option<usize>)
        ensures
            r matches Some(i) ==> list::first_index(self@.outputs, output_is(output)) == Some(i as int) && i
                < self.outputs@.len(),
            r is None ==> list::first_index(self@.outputs, output_is(output)) is None,
    {
        let mut i: usize = 0;
        while i < self.outputs.len()
            invariant
                i <= self.outputs.len(),
                forall|j: int| 0 <= j < i ==> !output_is(output)(#[trigger] self@.outputs[j]),
            decreases self.outputs.len() - i,
        {
            if self.outputs[i].output_id == output {
                proof {
                    list::lemma_first_index_is(self@.outputs, output_is(output), i as int);
                }
                return Some(i);
            }
            i += 1;
        }
        proof {
            list::lemma_first_index_none(self@.outputs, output_is(output));
        }
        None
    }

    /// The index of the output that has the CRTC.
    fn crtc_index(&self, crtc: u32) -> (r: Option<usize>)
        ensures
            r matches Some(i) ==> list::first_index(self@.outputs, crtc_is(crtc)) == Some(i as int) && i
                < self.outputs@.len(),
            r is None ==> list::first_index(self@.outputs, crtc_is(crtc)) is None,
    {
        let mut i: usize = 0;
        while i < self.outputs.len()
            invariant
                i <= self.outputs.len(),
                forall|j: int| 0 <= j < i ==> !crtc_is(crtc)(#[trigger] self@.outputs[j]),
            decreases self.outputs.len() - i,
        {
            if self.outputs[i].crtc_id == crtc {
                proof {
                    list::lemma_first_index_is(self@.outputs, crtc_is(crtc), i as int);
                }
                return Some(i);
            }
            i += 1;
        }
        proof {
            list::lemma_first_index_none(self@.outputs, crtc_is(crtc));
        }
        None
    }

    /// The index of the output that mirrors the Wayland output.
    fn mirror_index(&self, wl_name: u32) -> (r: Option<usize>)
        ensures
            r matches Some(i) ==> list::first_index(self@.outputs, mirrors(wl_name)) == Some(i as int) && i
                < self.outputs@.len(),
            r is None ==> list::first_index(self@.outputs, mirrors(wl_name)) is None,
    {
        let mut i: usize = 0;
        while i < self.outputs.len()
            invariant
                i <= self.outputs.len(),
                forall|j: int| 0 <= j < i ==> !mirrors(wl_name)(#[trigger] self@.outputs[j]),
            decreases self.outputs.len() - i,
        {
            if self.outputs[i].wl_name == wl_name {
                proof {
                    list::lemma_first_index_is(self@.outputs, mirrors(wl_name), i as int);
                }
                return Some(i);
            }
            i += 1;
        }
        proof {
            list::lemma_first_index_none(self@.outputs, mirrors(wl_name));
        }
        None
    }

    /// The size of the mode with the id.
    pub fn mode_size(&self, id: u32) -> (r: Option<(u16, u16)>)
        ensures
            r == size_of_mode(self@.modes, id),
    {
        let mut i: usize = 0;
        while i < self.modes.len()
            invariant
                i <= self.modes.len(),
                forall|j: int| 0 <= j < i ==> !mode_is(id)(#[trigger] self@.modes[j]),
            decreases self.modes.len() - i,
        {
            if self.modes[i].info.id == id {
                proof {
                    list::lemma_first_index_is(self@.modes, mode_is(id), i as int);
                }
                return Some((self.modes[i].info.width, self.modes[i].info.height));
            }
            i += 1;
        }
        proof {
            list::lemma_first_index_none(self@.modes, mode_is(id));
        }
        None
    }

    pub fn bump(&mut self)
        ensures
            final(self)@ == old(self)@.bumped(),
            final(self).outputs == old(self).outputs,
            final(self).modes == old(self).modes,
    {
        self.timestamp = self.timestamp.wrapping_add(1);
        self.config_timestamp = self.config_timestamp.wrapping_add(1);
    }

    /// Recomputes the X11 screen (i.e., bounding box of all outputs) size for
    /// connected enabled outputs, returning true if changed.
    pub fn recompute_bounds(&mut self) -> (changed: bool)
        ensures
            final(self)@ == old(self)@.rebounded(),
            changed == (old(self)@.bounds() != (old(self).width, old(self).height)),
    {
        let mut w: u16 = 0;
        let mut h: u16 = 0;
        let ghost os = self@.outputs;
        let mut i: usize = 0;
        while i < self.outputs.len()
            invariant
                i <= self.outputs.len(),
                os == self@.outputs,
                w == ScreenView::extent_x(os.take(i as int)),
                h == ScreenView::extent_y(os.take(i as int)),
            decreases self.outputs.len() - i,
        {
            let o = &self.outputs[i];
            proof {
                assert(os.take(i as int + 1).drop_last() =~= os.take(i as int));
                assert(os.take(i as int + 1).last() == o@);
            }
            if o.connected && o.mode != 0 {
                // saturating, since a client picks the crtc positions and
                // `position + size` can leave u16 behind
                let x: u16 = if o.x > 0 { o.x as u16 } else { 0 };
                let y: u16 = if o.y > 0 { o.y as u16 } else { 0 };
                let right: u16 = x.saturating_add(o.width);
                let low: u16 = y.saturating_add(o.height);
                if right > w {
                    w = right;
                }
                if low > h {
                    h = low;
                }
            }
            i += 1;
        }
        assert(os.take(i as int) =~= os);
        let w: u16 = clamp_size(w);
        let h: u16 = clamp_size(h);
        let changed = w != self.width || h != self.height;
        self.width = w;
        self.height = h;
        if changed {
            self.bump();
        }
        changed
    }

    /// Sets the screen's size, within what is accepted.
    pub fn set_size(&mut self, width: u16, height: u16)
        ensures
            old(self).wf() ==> final(self).wf(),
            final(self)@ == old(self)@.of_size(width, height),
    {
        self.width = clamp_size(width);
        self.height = clamp_size(height);
        assert(self@.modes == old(self)@.modes && self@.next_id == old(self)@.next_id);
        self.bump();
    }
}

/// The items as integers.
pub open spec fn item_views(s: Seq<(i32, i32, i32)>) -> Seq<(int, int, int)> {
    s.map_values(|t: (i32, i32, i32)| (t.0 as int, t.1 as int, t.2 as int))
}

spec fn ints(s: Seq<usize>) -> Seq<int> {
    s.map_values(|i: usize| i as int)
}

/// An item goes in front of the ones that start later.
proof fn lemma_placed(items: Seq<(int, int, int)>, order: Seq<int>, i: int, j: int)
    requires
        0 <= j <= order.len(),
        j > 0 ==> items[order[j - 1]].0 <= items[i].0,
        forall|k: int| j <= k < order.len() ==> items[#[trigger] order[k]].0 > items[i].0,
    ensures
        placed(items, order, i) == order.insert(j, i),
    decreases order.len(),
{
    if j == order.len() {
        assert(order.insert(j, i) =~= order.push(i));
    } else {
        assert(items[order[order.len() - 1]].0 > items[i].0);
        lemma_placed(items, order.drop_last(), i, j);
        assert(order.drop_last().insert(j, i).push(order.last()) =~= order.insert(j, i));
    }
}

/// The order of the items by logical start, those with the same start as they come.
fn sort_items(items: &Vec<(i32, i32, i32)>) -> (order: Vec<usize>)
    ensures
        ints(order@) == ordered(item_views(items@), items@.len() as int),
        forall|k: int| 0 <= k < order@.len() ==> #[trigger] order@[k] < items@.len(),
        order@.len() == items@.len(),
{
    let ghost iv = item_views(items@);
    let mut order: Vec<usize> = Vec::new();
    let mut n: usize = 0;
    assert(ints(order@) =~= Seq::empty());
    while n < items.len()
        invariant
            n <= items.len(),
            iv == item_views(items@),
            ints(order@) == ordered(iv, n as int),
            order@.len() == n,
            forall|k: int| 0 <= k < order@.len() ==> #[trigger] order@[k] < n,
        decreases items.len() - n,
    {
        let start: i32 = items[n].0;
        let mut j: usize = n;
        while j > 0 && items[order[j - 1]].0 > start
            invariant
                j <= n,
                n < items@.len(),
                iv == item_views(items@),
                order@.len() == n,
                start == items@[n as int].0,
                forall|k: int| 0 <= k < order@.len() ==> #[trigger] order@[k] < n,
                forall|k: int| j <= k < n ==> iv[#[trigger] ints(order@)[k]].0 > start,
            decreases j,
        {
            j -= 1;
        }
        proof {
            if j > 0 {
                assert(iv[ints(order@)[j - 1]].0 == items@[order@[j - 1] as int].0);
            }
            lemma_placed(iv, ints(order@), n as int, j as int);
        }
        let ghost before = order@;
        order.insert(j, n);
        assert(ints(order@) =~= ints(before).insert(j as int, n as int));
        n += 1;
    }
    order
}

/// The edges as a map.
spec fn edge_map(s: Seq<(i64, i128)>) -> Map<int, int>
    decreases s.len(),
{
    if s.len() == 0 {
        Map::empty()
    } else {
        edge_map(s.drop_last()).insert(s.last().0 as int, s.last().1 as int)
    }
}

spec fn distinct_edges(s: Seq<(i64, i128)>) -> bool {
    forall|i: int, j: int| 0 <= i < j < s.len() ==> s[i].0 != s[j].0
}

proof fn lemma_edge_map(s: Seq<(i64, i128)>)
    requires
        distinct_edges(s),
    ensures
        forall|i: int| 0 <= i < s.len() ==> edge_map(s).dom().contains((#[trigger] s[i]).0 as int) && edge_map(s)[s[i].0 as int] == s[i].1,
        forall|k: int| #[trigger] edge_map(s).dom().contains(k) ==> exists|i: int| 0 <= i < s.len() && s[i].0 == k,
    decreases s.len(),
{
    if s.len() > 0 {
        let r = s.drop_last();
        assert(distinct_edges(r));
        lemma_edge_map(r);
        assert forall|i: int| 0 <= i < s.len() implies edge_map(s).dom().contains((#[trigger] s[i]).0 as int) && edge_map(
            s,
        )[s[i].0 as int] == s[i].1 by {
            if i < s.len() - 1 {
                assert(r[i] == s[i]);
                assert(s[i].0 != s[s.len() - 1].0);
            }
        }
        assert forall|k: int| #[trigger] edge_map(s).dom().contains(k) implies exists|i: int|
            0 <= i < s.len() && s[i].0 == k by {
            if k != s.last().0 {
                assert(edge_map(r).dom().contains(k));
                let i = choose|i: int| 0 <= i < r.len() && r[i].0 == k;
                assert(s[i].0 == k);
            } else {
                assert(s[s.len() - 1].0 == k);
            }
        }
    }
}

/// Changing the value of one edge changes the map there.
proof fn lemma_edge_update(s: Seq<(i64, i128)>, i: int, v: i128)
    requires
        distinct_edges(s),
        0 <= i < s.len(),
    ensures
        edge_map(s.update(i, (s[i].0, v))) == edge_map(s).insert(s[i].0 as int, v as int),
        distinct_edges(s.update(i, (s[i].0, v))),
{
    let t = s.update(i, (s[i].0, v));
    assert(distinct_edges(t));
    lemma_edge_map(s);
    lemma_edge_map(t);
    let a = edge_map(t);
    let b = edge_map(s).insert(s[i].0 as int, v as int);
    assert forall|k: int| a.dom().contains(k) <==> b.dom().contains(k) by {
        if a.dom().contains(k) {
            let j = choose|j: int| 0 <= j < t.len() && t[j].0 == k;
            assert(s[j].0 == k);
        }
        if b.dom().contains(k) && k != s[i].0 {
            let j = choose|j: int| 0 <= j < s.len() && s[j].0 == k;
            assert(t[j].0 == k);
        }
        if k == s[i].0 {
            assert(t[i].0 == k);
        }
    }
    assert forall|k: int| a.dom().contains(k) implies a[k] == b[k] by {
        let j = choose|j: int| 0 <= j < t.len() && t[j].0 == k;
        assert(t[j].0 == s[j].0);
        assert(a[t[j].0 as int] == t[j].1);
        assert(edge_map(s)[s[j].0 as int] == s[j].1);
    }
    assert(a =~= b);
}

/// The index of the edge at a coordinate.
fn find_edge(edges: &Vec<(i64, i128)>, at: i64) -> (r: Option<usize>)
    requires
        distinct_edges(edges@),
    ensures
        r matches Some(i) ==> i < edges@.len() && edges@[i as int].0 == at && edge_map(edges@).dom().contains(at as int)
            && edge_map(edges@)[at as int] == edges@[i as int].1,
        r is None ==> !edge_map(edges@).dom().contains(at as int),
{
    proof {
        lemma_edge_map(edges@);
    }
    let mut i: usize = 0;
    while i < edges.len()
        invariant
            i <= edges.len(),
            distinct_edges(edges@),
            forall|j: int| 0 <= j < i ==> (#[trigger] edges@[j]).0 != at,
        decreases edges.len() - i,
    {
        if edges[i].0 == at {
            proof {
                lemma_edge_map(edges@);
            }
            return Some(i);
        }
        i += 1;
    }
    None
}

/// Every place lies within what `n` items can add up to.
spec fn edges_within(s: Seq<(i64, i128)>, n: int) -> bool {
    forall|i: int|
        0 <= i < s.len() ==> {
            &&& -0x1_0000_0000 <= (#[trigger] s[i]).0 <= 0x1_0000_0000
            &&& -n * 0x4_0000_0000 <= s[i].1 <= n * 0x4_0000_0000
        }
}

/// Where a logical coordinate is; see [`locate`].
fn find_place(edges: &Vec<(i64, i128)>, at: i64, Ghost(n): Ghost<int>) -> (p: i128)
    requires
        distinct_edges(edges@),
        edges_within(edges@, n),
        0 <= n <= 0x1_0000_0000_0000_0000,
        -0x8000_0000 <= at <= 0x7fff_ffff,
    ensures
        p == locate(edge_map(edges@), at as int),
        -n * 0x4_0000_0000 - 0x2_0000_0000 <= p <= n * 0x4_0000_0000 + 0x2_0000_0000,
{
    proof {
        lemma_edge_map(edges@);
    }
    let ghost m = edge_map(edges@);
    let mut found = false;
    let mut best: usize = 0;
    let mut i: usize = 0;
    while i < edges.len()
        invariant
            i <= edges.len(),
            found ==> best < edges.len() && edges@[best as int].0 <= at,
            forall|j: int| 0 <= j < i && (#[trigger] edges@[j]).0 <= at ==> found && edges@[j].0 <= edges@[best as int].0,
        decreases edges.len() - i,
    {
        if edges[i].0 <= at && (!found || edges[i].0 > edges[best].0) {
            best = i;
            found = true;
        }
        i += 1;
    }
    if found {
        let (e, p) = edges[best];
        proof {
            assert(m.dom().contains(e as int) && m[e as int] == p);
            assert forall|d: int| #[trigger] m.dom().contains(d) && d <= at implies d <= e by {
                let j = choose|j: int| 0 <= j < edges@.len() && edges@[j].0 == d;
                assert(edges@[j].0 <= at);
            }
            assert(edge_before(m, at as int, e as int));
            assert forall|d: int| edge_before(m, at as int, d) implies d == e by {}
            if m.dom().contains(at as int) {
                assert(e == at);
            }
        }
        p + (at - e) as i128
    } else {
        proof {
            assert forall|d: int| m.dom().contains(d) implies d > at by {
                let j = choose|j: int| 0 <= j < edges@.len() && edges@[j].0 == d;
                assert(!(edges@[j].0 <= at));
            }
        }
        0
    }
}

/// Repacks one axis, given each output's `(logical_start, logical_len,
/// physical_len)`, returning its physical start as far as that is a screen
/// position.
fn pack_axis(items: &Vec<(i32, i32, i32)>) -> (out: Vec<i16>)
    ensures
        out@.len() == items@.len(),
        forall|i: int|
            0 <= i < out@.len() ==> #[trigger] out@[i] == layout::clamped(
                packed(item_views(items@))[i],
                0,
                i16::MAX as int,
            ),
{
    let ghost iv = item_views(items@);
    let order = sort_items(items);
    let ghost ord = ints(order@);
    let mut out: Vec<i16> = vec![0i16;items.len()];
    let mut edges: Vec<(i64, i128)> = Vec::new();
    proof {
        assert(edge_map(edges@) =~= Map::empty());
    }
    let ghost starts = iv.map_values(|t: (int, int, int)| t.0);
    if items.len() > 0 {
        let mut least: i32 = items[0].0;
        let mut i: usize = 1;
        proof {
            reveal_with_fuel(layout::least, 2);
            assert(starts.take(1).drop_last() =~= Seq::empty());
        }
        while i < items.len()
            invariant
                1 <= i <= items.len(),
                iv == item_views(items@),
                starts == iv.map_values(|t: (int, int, int)| t.0),
                layout::least(starts.take(i as int)) == Some(least as int),
            decreases items.len() - i,
        {
            assert(starts.take(i as int + 1).drop_last() =~= starts.take(i as int));
            if items[i].0 < least {
                least = items[i].0;
            }
            i += 1;
        }
        assert(starts.take(i as int) =~= starts);
        edges.push((least as i64, 0));
        proof {
            assert(edges@.drop_last() =~= Seq::empty());
            reveal_with_fuel(edge_map, 2);
            assert(edge_map(edges@) =~= Map::empty().insert(least as int, 0));
        }
    } else {
        assert(starts =~= Seq::empty());
    }
    assert(ord.take(0) =~= Seq::empty());
    let ghost mut places = Map::<int, int>::empty();
    let mut k: usize = 0;
    while k < order.len()
        invariant
            k <= order.len(),
            iv == item_views(items@),
            order@.len() == items@.len(),
            out@.len() == items@.len(),
            ord == ints(order@),
            forall|j: int| 0 <= j < order@.len() ==> #[trigger] order@[j] < items@.len(),
            distinct_edges(edges@),
            edges_within(edges@, k as int),
            packing(iv, ord.take(k as int)) == (edge_map(edges@), places),
            forall|i: int|
                #[trigger] places.dom().contains(i) ==> 0 <= i < out@.len() && out@[i] == layout::clamped(
                    places[i],
                    0,
                    i16::MAX as int,
                ),
            forall|j: int| 0 <= j < k ==> places.dom().contains(#[trigger] order@[j] as int),
        decreases order.len() - k,
    {
        let i: usize = order[k];
        let (ls, llen, plen) = items[i];
        let at: i64 = ls as i64;
        let end: i64 = at + llen as i64;
        let ghost m0 = edge_map(edges@);
        let px: i128 = find_place(&edges, at, Ghost(k as int));
        proof {
            assert(ord.take(k as int + 1).drop_last() =~= ord.take(k as int));
            assert(ord.take(k as int + 1).last() == i as int);
        }
        match find_edge(&edges, at) {
            Some(_) => {},
            None => {
                let ghost e0 = edges@;
                edges.push((at, px));
                proof {
                    lemma_edge_map(e0);
                    assert(edges@.drop_last() =~= e0);
                }
            },
        }
        let ghost m1 = edge_map(edges@);
        assert(m1 == if m0.dom().contains(at as int) { m0 } else { m0.insert(at as int, px as int) });
        let far: i128 = px + plen as i128;
        match find_edge(&edges, end) {
            Some(e) => {
                if far > edges[e].1 {
                    proof {
                        lemma_edge_update(edges@, e as int, far);
                    }
                    edges[e] = (end, far);
                } else {
                    assert(m1.insert(end as int, m1[end as int]) =~= m1);
                }
            },
            None => {
                let ghost e0 = edges@;
                edges.push((end, far));
                proof {
                    lemma_edge_map(e0);
                    assert(edges@.drop_last() =~= e0);
                }
            },
        }
        let p: i16 = if px < 0 { 0 } else if px > i16::MAX as i128 { i16::MAX } else { px as i16 };
        out[i] = p;
        proof {
            places = places.insert(i as int, px as int);
        }
        k += 1;
    }
    proof {
        assert(ord.take(k as int) =~= ord);
        assert forall|i: int| 0 <= i < items@.len() implies places.dom().contains(i) by {
            lemma_ordered_has_all(iv, items@.len() as int, i);
            let j = choose|j: int| 0 <= j < ord.len() && ord[j] == i;
            assert(order@[j] as int == i);
        }
        assert(packing(iv, ordered(iv, iv.len() as int)).1 == places);
        assert forall|i: int| 0 <= i < out@.len() implies #[trigger] out@[i] == layout::clamped(
            packed(item_views(items@))[i],
            0,
            i16::MAX as int,
        ) by {
            assert(places.dom().contains(i));
            assert(packed(iv)[i] == places[i]);
        }
    }
    out
}

/// The order has every item.
proof fn lemma_ordered_has_all(items: Seq<(int, int, int)>, n: int, i: int)
    requires
        0 <= i < n,
    ensures
        exists|j: int| 0 <= j < ordered(items, n).len() && ordered(items, n)[j] == i,
    decreases n,
{
    let prev = ordered(items, n - 1);
    lemma_placed_has(items, prev, n - 1);
    if i < n - 1 {
        lemma_ordered_has_all(items, n - 1, i);
        let j = choose|j: int| 0 <= j < prev.len() && prev[j] == i;
        assert(prev.contains(prev[j]));
    }
    assert(ordered(items, n).contains(i));
}

proof fn lemma_placed_has(items: Seq<(int, int, int)>, order: Seq<int>, i: int)
    ensures
        placed(items, order, i).contains(i),
        forall|x: int| order.contains(x) ==> #[trigger] placed(items, order, i).contains(x),
    decreases order.len(),
{
    let p = placed(items, order, i);
    if order.len() == 0 || items[order.last()].0 <= items[i].0 {
        assert(p[order.len() as int] == i);
        assert forall|x: int| order.contains(x) implies #[trigger] p.contains(x) by {
            let j = choose|j: int| 0 <= j < order.len() && order[j] == x;
            assert(p[j] == x);
        }
    } else {
        let q = placed(items, order.drop_last(), i);
        lemma_placed_has(items, order.drop_last(), i);
        let a = choose|a: int| 0 <= a < q.len() && q[a] == i;
        assert(p[a] == i);
        assert forall|x: int| order.contains(x) implies #[trigger] p.contains(x) by {
            let j = choose|j: int| 0 <= j < order.len() && order[j] == x;
            if j < order.len() - 1 {
                assert(order.drop_last()[j] == x);
                assert(q.contains(x));
                let b = choose|b: int| 0 <= b < q.len() && q[b] == x;
                assert(p[b] == x);
            } else {
                assert(p[q.len() as int] == x);
            }
        }
    }
}

fn clamp_size(v: u16) -> (r: u16)
    ensures
        r == layout::clamped(v as int, 1, MAX_SCREEN as int),
{
    if v < 1 {
        1
    } else if v > MAX_SCREEN {
        MAX_SCREEN
    } else {
        v
    }
}

impl Screen {
    /// Derives each output's physical CRTC position from the logical layout so
    /// that native-resolution capture buffers tile without overlap, even when
    /// outputs have different (possibly fractional) scales.
    ///
    /// Logical coordinates only encode the arrangement; physical sizes differ
    /// by scale. Each axis is repacked independently, walking outputs
    /// left-to-right (top-to-bottom). This is exact for edge-aligned layouts
    /// (rows, columns, aligned grids); gaps are bridged 1:1.
    fn relayout_physical(&mut self)
        ensures
            final(self)@ == old(self)@.relaid(),
    {
        let ghost s0 = self@;
        let mut xs: Vec<(i32, i32, i32)> = Vec::new();
        let mut ys: Vec<(i32, i32, i32)> = Vec::new();
        let mut i: usize = 0;
        while i < self.outputs.len()
            invariant
                i <= self.outputs.len(),
                s0 == self@,
                xs@.len() == i,
                ys@.len() == i,
                forall|j: int| 0 <= j < i ==> item_views(xs@)[j] == #[trigger] axis_x(s0.outputs)[j],
                forall|j: int| 0 <= j < i ==> item_views(ys@)[j] == #[trigger] axis_y(s0.outputs)[j],
            decreases self.outputs.len() - i,
        {
            let o = &self.outputs[i];
            xs.push((o.lx, o.lw, o.width as i32));
            ys.push((o.ly, o.lh, o.height as i32));
            i += 1;
        }
        assert(item_views(xs@) =~= axis_x(s0.outputs));
        assert(item_views(ys@) =~= axis_y(s0.outputs));
        let px = pack_axis(&xs);
        let py = pack_axis(&ys);
        let mut i: usize = 0;
        while i < self.outputs.len()
            invariant
                i <= self.outputs.len(),
                px@.len() == self.outputs@.len(),
                py@.len() == self.outputs@.len(),
                s0.outputs.len() == self.outputs@.len(),
                self@ == (ScreenView { outputs: self@.outputs, ..s0 }),
                forall|j: int| i <= j < s0.outputs.len() ==> #[trigger] self@.outputs[j] == s0.outputs[j],
                forall|j: int|
                    0 <= j < i ==> #[trigger] self@.outputs[j] == (OutputView {
                        x: px@[j],
                        y: py@[j],
                        ..s0.outputs[j]
                    }),
            decreases self.outputs.len() - i,
        {
            let ghost before = self@;
            assert(before.outputs[i as int] == s0.outputs[i as int]);
            self.outputs[i].x = px[i];
            self.outputs[i].y = py[i];
            assert(self@.outputs =~= before.outputs.update(
                i as int,
                OutputView { x: px@[i as int], y: py@[i as int], ..s0.outputs[i as int] },
            ));
            i += 1;
        }
        proof {
            assert(self@.outputs =~= s0.relaid().outputs);
        }
    }

    /// The ids of the modes that are marked.
    fn ids_marked(&self, marks: &Vec<bool>) -> (ids: Vec<u32>)
        requires
            marks@.len() == self.modes@.len(),
        ensures
            ids@ == ids_of(mode_views(list::kept(self.modes@, marks@))),
    {
        let mut ids: Vec<u32> = Vec::new();
        let mut i: usize = 0;
        assert(ids@ =~= ids_of(mode_views(list::kept(self.modes@.take(0), marks@))));
        while i < self.modes.len()
            invariant
                i <= self.modes.len(),
                marks@.len() == self.modes@.len(),
                ids@ == ids_of(mode_views(list::kept(self.modes@.take(i as int), marks@))),
            decreases self.modes.len() - i,
        {
            assert(self.modes@.take(i as int + 1).drop_last() =~= self.modes@.take(i as int));
            let ghost k0 = list::kept(self.modes@.take(i as int), marks@);
            if marks[i] {
                ids.push(self.modes[i].info.id);
                assert(ids@ =~= ids_of(mode_views(k0.push(self.modes@[i as int]))));
            }
            i += 1;
        }
        assert(self.modes@.take(i as int) =~= self.modes@);
        ids
    }

    /// Output `i`'s mode for a size; see [`ScreenView::mode_for`].
    fn pick_mode(&mut self, i: usize, width: u16, height: u16, refresh_mhz: u32) -> (mode: u32)
        requires
            i < old(self).outputs@.len(),
            old(self).next_id < u32::MAX,
        ensures
            (final(self)@, mode) == old(self)@.mode_for(i as int, width, height, refresh_mhz),
            final(self).outputs == old(self).outputs,
    {
        let current: u32 = self.outputs[i].mode;
        if let Some((w, h)) = self.mode_size(current) {
            if w == width && h == height {
                return current;
            }
        }
        let ghost ids = self.outputs@[i as int].mode_ids@;
        let ghost p = has_size(self@.modes, width, height);
        let mut k: usize = 0;
        while k < self.outputs[i].mode_ids.len()
            invariant
                i < self.outputs@.len(),
                ids == self.outputs@[i as int].mode_ids@,
                p == has_size(self@.modes, width, height),
                k <= ids.len(),
                forall|j: int| 0 <= j < k ==> !p(#[trigger] ids[j]),
                *self == *old(self),
                self@.outputs[i as int] == self.outputs@[i as int]@,
                size_of_mode(self@.modes, self@.outputs[i as int].mode) != Some((width, height)),
            decreases ids.len() - k,
        {
            let id: u32 = self.outputs[i].mode_ids[k];
            if let Some((w, h)) = self.mode_size(id) {
                if w == width && h == height {
                    proof {
                        list::lemma_first_index_is(ids, p, k as int);
                    }
                    return id;
                }
            }
            k += 1;
        }
        proof {
            list::lemma_first_index_none(ids, p);
        }
        self.alloc_mode(width, height, refresh_mhz)
    }

    /// Takes the native modes besides `mode` out of output `i`'s list.
    fn retire_stale(&mut self, i: usize, mode: u32)
        requires
            i < old(self).outputs@.len(),
        ensures
            final(self)@ == old(self)@.without_stale(i as int, mode),
    {
        let ghost s0 = self@;
        let ghost ids = self.outputs@[i as int].mode_ids@;
        let ghost p = stale_for(ids, mode);
        let mut marks: Vec<bool> = Vec::new();
        let mut k: usize = 0;
        while k < self.modes.len()
            invariant
                k <= self.modes.len(),
                marks@.len() == k,
                i < self.outputs@.len(),
                ids == self.outputs@[i as int].mode_ids@,
                p == stale_for(ids, mode),
                forall|j: int| 0 <= j < k ==> #[trigger] marks@[j] == p(self.modes@[j]@),
            decreases self.modes.len() - k,
        {
            let id: u32 = self.modes[k].info.id;
            marks.push(self.modes[k].ours && id != mode && list::holds(&self.outputs[i].mode_ids, id));
            k += 1;
        }
        let stale = self.ids_marked(&marks);
        proof {
            list::lemma_kept_is_only(self.modes@, |m: Mode| m@, marks@, p);
            assert(s0.outputs[i as int] == self.outputs@[i as int]@);
            assert(stale@ == ids_of(list::only(s0.modes, p)));
        }
        if stale.len() > 0 {
            let ghost o0 = s0.outputs[i as int];
            list::drop_all(&mut self.outputs[i].mode_ids, &stale);
            proof {
                assert(self@.outputs =~= s0.outputs.update(
                    i as int,
                    OutputView { mode_ids: list::only(o0.mode_ids, list::is_not_in(stale@)), ..o0 },
                ));
                assert(self@ =~= s0.with_output(
                    i as int,
                    OutputView { mode_ids: list::only(o0.mode_ids, list::is_not_in(stale@)), ..o0 },
                ));
            }
            self.prune_modes();
        }
    }

    /// Creates or updates the output mirroring a given Wayland output, then
    /// recomputes the physical layout and screen bounds. Returns whether
    /// anything changed.
    ///
    /// `lx,ly,lw,lh` is the output's rectangle in the compositor's logical
    /// space; `width,height` is its physical mode resolution. The CRTC keeps the
    /// physical mode as its size, and its physical position is derived from the
    /// logical layout.
    pub fn sync_wayland_output(
        &mut self,
        wl_name: u32,
        name: &[u8],
        lx: i32,
        ly: i32,
        lw: i32,
        lh: i32,
        width: u16,
        height: u16,
        refresh_mhz: u32,
    ) -> (changed: bool)
        requires
            old(self).next_id + 3 <= u32::MAX,
        ensures
            old(self).wf() ==> final(self).wf(),
            final(self)@ == old(self)@.synced(wl_name, name@, lx, ly, lw, lh, width, height, refresh_mhz),
            changed == old(self)@.sync_changes(wl_name, lx, ly, lw, lh, width, height),
    {
        let ghost s0 = self@;
        match self.mirror_index(wl_name) {
            Some(i) => {
                let o = &self.outputs[i];
                let same_mode = match self.mode_size(o.mode) {
                    Some((w, h)) => w == width && h == height,
                    None => false,
                };
                let unchanged = o.lx == lx && o.ly == ly && o.lw == lw && o.lh == lh && o.width == width && o.height
                    == height && same_mode;
                assert(s0.outputs[i as int] == o@);
                if unchanged {
                    return false;
                }
                // keep the mode if it already has this size; else reuse one of
                // the output's listed modes with it (a client-created mode the
                // compositor was just driven to); else allocate a native one
                let mode: u32 = self.pick_mode(i, width, height, refresh_mhz);
                let ghost s1 = self@;
                let ghost o0 = s0.outputs[i as int];
                assert(s1.outputs == s0.outputs);
                self.outputs[i].lx = lx;
                self.outputs[i].ly = ly;
                self.outputs[i].lw = lw;
                self.outputs[i].lh = lh;
                self.outputs[i].width = width;
                self.outputs[i].height = height;
                self.outputs[i].mode = mode;
                if !list::holds(&self.outputs[i].mode_ids, mode) {
                    self.outputs[i].mode_ids.push(mode);
                }
                proof {
                    let o1 = OutputView {
                        lx,
                        ly,
                        lw,
                        lh,
                        width,
                        height,
                        mode,
                        mode_ids: with_mode(o0.mode_ids, mode),
                        ..o0
                    };
                    assert(self@.outputs =~= s1.outputs.update(i as int, o1));
                    assert(self@ =~= s1.with_output(i as int, o1));
                }
                // Any native mode of another size is ours to retire. (Looked up
                // by size rather than by the previous CRTC mode, which is 0 when a
                // client disabled the CRTC before changing it.)
                self.retire_stale(i, mode);
            },
            None => {
                self.join(wl_name, name, lx, ly, lw, lh, width, height, refresh_mhz);
            },
        }
        self.relayout_physical();
        self.recompute_bounds();
        proof {
            if ids_fresh(s0) {
                lemma_sync_stays_fresh(s0, wl_name, name@, lx, ly, lw, lh, width, height, refresh_mhz);
            }
        }
        true
    }

    /// Adds the output that mirrors a Wayland output, and drops the synthetic one
    /// and its mode now that there is a real one.
    fn join(
        &mut self,
        wl_name: u32,
        name: &[u8],
        lx: i32,
        ly: i32,
        lw: i32,
        lh: i32,
        width: u16,
        height: u16,
        refresh_mhz: u32,
    )
        requires
            old(self).next_id + 3 <= u32::MAX,
        ensures
            final(self)@ == old(self)@.joined(wl_name, name@, lx, ly, lw, lh, width, height, refresh_mhz),
    {
        let ghost s0 = self@;
        let mode: u32 = self.alloc_mode(width, height, refresh_mhz);
        let output_id: u32 = self.alloc_id();
        let crtc_id: u32 = self.alloc_id();
        let name: Vec<u8> = if name.len() == 0 {
            let mut n: Vec<u8> = vec![111u8, 117u8, 116u8, 112u8, 117u8, 116u8, 45u8];
            assert(n@ =~= output_prefix());
            list::push_decimal(&mut n, wl_name as u64);
            n
        } else {
            list::copy_bytes(name)
        };
        let o = Output {
            output_id,
            crtc_id,
            name,
            x: 0,
            y: 0,
            width,
            height,
            lx,
            ly,
            lw,
            lh,
            mode,
            mode_ids: vec![mode],
            mm_width: geometry::mm(width),
            mm_height: geometry::mm(height),
            wl_name,
            connected: true,
        };
        assert(o.mode_ids@ =~= seq![mode]);
        let ghost os0 = self.outputs@;
        self.outputs.push(o);
        assert(output_views(self.outputs@) =~= s0.outputs.push(o@));
        self.keep_outputs(0);
        self.prune_modes();
    }

    /// Drops the outputs that mirror the Wayland output, or with 0 the synthetic
    /// ones.
    fn keep_outputs(&mut self, gone: u32)
        ensures
            final(self)@ == (ScreenView {
                outputs: list::only(old(self)@.outputs, not_mirroring(gone)),
                ..old(self)@
            }),
    {
        let mut keep: Vec<bool> = Vec::new();
        let mut i: usize = 0;
        while i < self.outputs.len()
            invariant
                i <= self.outputs.len(),
                keep@.len() == i,
                forall|j: int| 0 <= j < i ==> #[trigger] keep@[j] == not_mirroring(gone)(self.outputs@[j]@),
            decreases self.outputs.len() - i,
        {
            keep.push(self.outputs[i].wl_name != gone);
            i += 1;
        }
        let ghost o0 = self.outputs@;
        list::retain(&mut self.outputs, &keep);
        proof {
            list::lemma_kept_is_only(o0, |o: Output| o@, keep@, not_mirroring(gone));
        }
    }

    /// Drops the output of a Wayland output that went away. Returns whether there
    /// was one.
    pub fn remove_wayland_output(&mut self, wl_name: u32) -> (removed: bool)
        ensures
            old(self).wf() ==> final(self).wf(),
            removed == (list::only(old(self)@.outputs, not_mirroring(wl_name)).len() != old(self)@.outputs.len()),
            removed ==> final(self)@ == old(self)@.without_output(wl_name),
            !removed ==> final(self)@ == old(self)@,
    {
        let before: usize = self.outputs.len();
        let ghost s0 = self@;
        self.keep_outputs(wl_name);
        if self.outputs.len() != before {
            self.prune_modes();
            self.relayout_physical();
            self.recompute_bounds();
            proof {
                if ids_fresh(s0) {
                    let o = ScreenView { outputs: list::only(s0.outputs, not_mirroring(wl_name)), ..s0 };
                    lemma_fewer_stay_fresh(o, in_use(o.outputs), o.pruned());
                }
            }
            true
        } else {
            proof {
                lemma_only_same_len(s0.outputs, not_mirroring(wl_name));
                assert(self@ =~= s0);
            }
            false
        }
    }
}

/// Outputs that do not mirror the Wayland output.
pub open spec fn not_mirroring(wl_name: u32) -> spec_fn(OutputView) -> bool {
    |o: OutputView| o.wl_name != wl_name
}

proof fn lemma_only_same_len<T>(s: Seq<T>, p: spec_fn(T) -> bool)
    requires
        list::only(s, p).len() == s.len(),
    ensures
        list::only(s, p) == s,
    decreases s.len(),
{
    if s.len() > 0 {
        list::lemma_only_holds(s.drop_last(), p);
        lemma_only_same_len(s.drop_last(), p);
        assert(s =~= s.drop_last().push(s.last()));
    } else {
        assert(s =~= Seq::empty());
    }
}

impl Screen {
    /// Lists the mode for the output, once.
    pub fn add_output_mode(&mut self, output: u32, mode: u32)
        ensures
            old(self).wf() ==> final(self).wf(),
            final(self)@ == old(self)@.listing(output, mode),
    {
        let ghost s0 = self@;
        if let Some(i) = self.output_index(output) {
            let ghost o = s0.outputs[i as int];
            if !list::holds(&self.outputs[i].mode_ids, mode) {
                self.outputs[i].mode_ids.push(mode);
            }
            assert(self@.outputs =~= s0.outputs.update(
                i as int,
                OutputView { mode_ids: with_mode(o.mode_ids, mode), ..o },
            ));
            assert(self@.modes == s0.modes && self@.next_id == s0.next_id);
        }
    }

    /// Takes the mode out of the output's list.
    pub fn delete_output_mode(&mut self, output: u32, mode: u32)
        ensures
            old(self).wf() ==> final(self).wf(),
            final(self)@ == old(self)@.delisting(output, mode),
    {
        let ghost s0 = self@;
        if let Some(i) = self.output_index(output) {
            let ghost o = s0.outputs[i as int];
            let gone: Vec<u32> = vec![mode];
            assert(gone@ =~= seq![mode]);
            list::drop_all(&mut self.outputs[i].mode_ids, &gone);
            assert(self@.outputs =~= s0.outputs.update(
                i as int,
                OutputView { mode_ids: list::only(o.mode_ids, list::is_not_in(seq![mode])), ..o },
            ));
            assert(self@.modes == s0.modes && self@.next_id == s0.next_id);
        }
    }

    /// Drops a mode, and takes it out of every output's list.
    pub fn destroy_mode(&mut self, mode: u32)
        ensures
            old(self).wf() ==> final(self).wf(),
            final(self)@ == old(self)@.without_mode(mode),
    {
        let ghost s0 = self@;
        let mut keep: Vec<bool> = Vec::new();
        let mut i: usize = 0;
        while i < self.modes.len()
            invariant
                i <= self.modes.len(),
                keep@.len() == i,
                forall|j: int| 0 <= j < i ==> #[trigger] keep@[j] == mode_is_not(mode)(self.modes@[j]@),
            decreases self.modes.len() - i,
        {
            keep.push(self.modes[i].info.id != mode);
            i += 1;
        }
        let ghost m0 = self.modes@;
        list::retain(&mut self.modes, &keep);
        proof {
            list::lemma_kept_is_only(m0, |m: Mode| m@, keep@, mode_is_not(mode));
        }
        let ghost ms = self@.modes;
        let gone: Vec<u32> = vec![mode];
        assert(gone@ =~= seq![mode]);
        let mut i: usize = 0;
        while i < self.outputs.len()
            invariant
                i <= self.outputs.len(),
                gone@ == seq![mode],
                s0.outputs.len() == self.outputs@.len(),
                self@ == (ScreenView { outputs: self@.outputs, modes: ms, ..s0 }),
                forall|j: int| i <= j < s0.outputs.len() ==> #[trigger] self@.outputs[j] == s0.outputs[j],
                forall|j: int| 0 <= j < i ==> #[trigger] self@.outputs[j] == unlisted(mode)(s0.outputs[j]),
            decreases self.outputs.len() - i,
        {
            let ghost before = self@;
            assert(before.outputs[i as int] == s0.outputs[i as int]);
            list::drop_all(&mut self.outputs[i].mode_ids, &gone);
            assert(self@.outputs =~= before.outputs.update(i as int, unlisted(mode)(s0.outputs[i as int])));
            i += 1;
        }
        assert(self@.outputs =~= s0.outputs.map_values(unlisted(mode)));
        proof {
            if ids_fresh(s0) {
                lemma_fewer_stay_fresh(s0, mode_is_not(mode), self@);
            }
        }
    }

    pub fn output_by_id(&self, output: u32) -> (r: Option<&Output>)
        ensures
            r is Some == self@.find(output_is(output)) is Some,
            r matches Some(o) ==> Some(o@) == self@.find(output_is(output)),
    {
        match self.output_index(output) {
            Some(i) => Some(&self.outputs[i]),
            None => None,
        }
    }

    pub fn output_by_crtc(&self, crtc: u32) -> (r: Option<&Output>)
        ensures
            r is Some == self@.find(crtc_is(crtc)) is Some,
            r matches Some(o) ==> Some(o@) == self@.find(crtc_is(crtc)),
    {
        match self.crtc_index(crtc) {
            Some(i) => Some(&self.outputs[i]),
            None => None,
        }
    }

    /// The output that mirrors the Wayland output; 0 names none.
    pub fn output_by_wl_name(&self, wl_name: u32) -> (r: Option<&Output>)
        ensures
            r is Some == (wl_name != 0 && self@.find(mirrors(wl_name)) is Some),
            r matches Some(o) ==> Some(o@) == self@.find(mirrors(wl_name)),
    {
        if wl_name == 0 {
            return None;
        }
        match self.mirror_index(wl_name) {
            Some(i) => Some(&self.outputs[i]),
            None => None,
        }
    }

    pub fn mode_infos(&self) -> (v: Vec<ModeInfo>)
        ensures
            v@ == self@.modes.map_values(|m: ModeView| m.info),
    {
        let mut v: Vec<ModeInfo> = Vec::new();
        let mut i: usize = 0;
        while i < self.modes.len()
            invariant
                i <= self.modes.len(),
                v@.len() == i,
                forall|j: int| 0 <= j < i ==> #[trigger] v@[j] == self@.modes[j].info,
            decreases self.modes.len() - i,
        {
            v.push(self.modes[i].info);
            i += 1;
        }
        assert(v@ =~= self@.modes.map_values(|m: ModeView| m.info));
        v
    }

    /// The names of all modes, one behind the other.
    pub fn mode_names(&self) -> (v: Vec<u8>)
        ensures
            v@ == names_of(self@.modes),
    {
        let mut v: Vec<u8> = Vec::new();
        let mut i: usize = 0;
        assert(self@.modes.take(0) =~= Seq::empty());
        while i < self.modes.len()
            invariant
                i <= self.modes.len(),
                v@ == names_of(self@.modes.take(i as int)),
            decreases self.modes.len() - i,
        {
            assert(self@.modes.take(i as int + 1).drop_last() =~= self@.modes.take(i as int));
            list::append_bytes(&mut v, self.modes[i].name.as_slice());
            i += 1;
        }
        assert(self@.modes.take(i as int) =~= self@.modes);
        v
    }

    pub fn crtc_ids(&self) -> (v: Vec<u32>)
        ensures
            v@ == self@.outputs.map_values(|o: OutputView| o.crtc_id),
    {
        let mut v: Vec<u32> = Vec::new();
        let mut i: usize = 0;
        while i < self.outputs.len()
            invariant
                i <= self.outputs.len(),
                v@.len() == i,
                forall|j: int| 0 <= j < i ==> #[trigger] v@[j] == self@.outputs[j].crtc_id,
            decreases self.outputs.len() - i,
        {
            v.push(self.outputs[i].crtc_id);
            i += 1;
        }
        assert(v@ =~= self@.outputs.map_values(|o: OutputView| o.crtc_id));
        v
    }

    pub fn output_ids(&self) -> (v: Vec<u32>)
        ensures
            v@ == self@.outputs.map_values(|o: OutputView| o.output_id),
    {
        let mut v: Vec<u32> = Vec::new();
        let mut i: usize = 0;
        while i < self.outputs.len()
            invariant
                i <= self.outputs.len(),
                v@.len() == i,
                forall|j: int| 0 <= j < i ==> #[trigger] v@[j] == self@.outputs[j].output_id,
            decreases self.outputs.len() - i,
        {
            v.push(self.outputs[i].output_id);
            i += 1;
        }
        assert(v@ =~= self@.outputs.map_values(|o: OutputView| o.output_id));
        v
    }

    /// The physical CRTC position of the output mirroring `wl_name`, for placing
    /// its capture buffer in the framebuffer.
    pub fn physical_pos(&self, wl_name: u32) -> (r: Option<(i32, i32)>)
        ensures
            r == match self@.find(mirrors(wl_name)) {
                Some(o) => Some((o.x as i32, o.y as i32)),
                None => None,
            },
    {
        match self.mirror_index(wl_name) {
            Some(i) => Some((self.outputs[i].x as i32, self.outputs[i].y as i32)),
            None => None,
        }
    }

    /// Per-output physical (X11 screen) and logical (Wayland compositor)
    /// rectangles for the connected enabled outputs. Used to remap absolute
    /// pointer input from the physical-tiled screen back into logical space (so
    /// it is correct for scaled displays).
    pub fn layout_rects(&self) -> (v: Vec<OutputRect>)
        ensures
            v@ == list::only(self@.outputs, enabled()).map_values(|o: OutputView| rect_of(o)),
    {
        let ghost os = self@.outputs;
        let mut v: Vec<OutputRect> = Vec::new();
        let mut i: usize = 0;
        assert(os.take(0) =~= Seq::empty());
        assert(v@ =~= list::only(os.take(0), enabled()).map_values(|o: OutputView| rect_of(o)));
        while i < self.outputs.len()
            invariant
                i <= self.outputs.len(),
                os == self@.outputs,
                v@ == list::only(os.take(i as int), enabled()).map_values(|o: OutputView| rect_of(o)),
            decreases self.outputs.len() - i,
        {
            let o = &self.outputs[i];
            assert(os.take(i as int + 1).drop_last() =~= os.take(i as int));
            assert(os[i as int] == o@);
            if o.connected && o.mode != 0 {
                v.push(
                    OutputRect {
                        px: o.x as i32,
                        py: o.y as i32,
                        pw: o.width as i32,
                        ph: o.height as i32,
                        lx: o.lx,
                        ly: o.ly,
                        lw: o.lw,
                        lh: o.lh,
                    },
                );
                assert(v@ =~= list::only(os.take(i as int), enabled()).push(o@).map_values(
                    |o: OutputView| rect_of(o),
                ));
            }
            i += 1;
        }
        assert(os.take(i as int) =~= os);
        v
    }

    /// Reconfigures a CRTC (position + mode, 0 to disable) in the model only,
    /// as `RRSetCrtcConfig` does: the screen size is the client's to set with
    /// `RRSetScreenSize`, so the bounds are left alone. Returns false for an
    /// unknown CRTC or mode.
    pub fn set_crtc(&mut self, crtc: u32, x: i16, y: i16, mode: u32) -> (ok: bool)
        ensures
            old(self).wf() ==> final(self).wf(),
            ok == ((mode == 0 || size_of_mode(old(self)@.modes, mode) is Some) && list::first_index(
                old(self)@.outputs,
                crtc_is(crtc),
            ) is Some),
            ok ==> final(self)@ == old(self)@.with_crtc(
                list::first_index(old(self)@.outputs, crtc_is(crtc))->0,
                x,
                y,
                mode,
            ),
            !ok ==> final(self)@ == old(self)@,
    {
        let size: Option<(u16, u16)> = if mode == 0 { None } else {
            match self.mode_size(mode) {
                Some(s) => Some(s),
                None => {
                    return false;
                },
            }
        };
        let ghost s0 = self@;
        match self.crtc_index(crtc) {
            None => false,
            Some(i) => {
                let ghost o = s0.outputs[i as int];
                assert(o == self.outputs@[i as int]@);
                self.outputs[i].mode = mode;
                self.outputs[i].x = x;
                self.outputs[i].y = y;
                if let Some((w, h)) = size {
                    self.outputs[i].width = w;
                    self.outputs[i].height = h;
                }
                proof {
                    let (width, height) = match size_of_mode(s0.modes, mode) {
                        Some(s) if mode != 0 => s,
                        _ => (o.width, o.height),
                    };
                    assert(self@.outputs =~= s0.outputs.update(
                        i as int,
                        OutputView { mode, x, y, width, height, ..o },
                    ));
                }
                self.bump();
                true
            },
        }
    }

    /// Puts every Wayland output back to what the compositor is actually
    /// driving, and the screen back to their bounds: re-enables CRTCs a client
    /// disabled, at a mode of the output's real size. For rolling back a
    /// client's reconfiguration that the compositor then refused (RealVNC
    /// disables the CRTC and resizes the screen *before* it asks for the mode,
    /// and does not undo either when that fails, which would leave the X
    /// screen a size the capture never fills and the output disabled).
    /// Returns whether anything changed.
    pub fn restore_outputs(&mut self) -> (changed: bool)
        requires
            old(self).next_id + old(self).outputs@.len() <= u32::MAX,
        ensures
            old(self).wf() ==> final(self).wf(),
            final(self)@ == old(self)@.restored(),
            changed == old(self)@.restore_changes(),
    {
        let ghost s0 = self@;
        let mut changed = false;
        let mut i: usize = 0;
        let n: usize = self.outputs.len();
        while i < n
            invariant
                i <= n,
                n == self.outputs@.len(),
                n == s0.outputs.len(),
                self.next_id + (n - i) <= u32::MAX,
                (self@, changed) == s0.put_back(i as int),
            decreases n - i,
        {
            let o = &self.outputs[i];
            assert(self@.outputs[i as int] == o@);
            let width: u16 = o.width;
            let height: u16 = o.height;
            let ok = match self.mode_size(o.mode) {
                Some((w, h)) => w == width && h == height,
                None => false,
            };
            if o.is_wayland() && !ok {
                let ghost s1 = self@;
                let ghost o0 = s1.outputs[i as int];
                let mode: u32 = self.pick_mode(i, width, height, 0);
                let ghost s2 = self@;
                assert(s2.outputs == s1.outputs);
                self.outputs[i].mode = mode;
                if !list::holds(&self.outputs[i].mode_ids, mode) {
                    self.outputs[i].mode_ids.push(mode);
                }
                proof {
                    let o1 = OutputView { mode, mode_ids: with_mode(o0.mode_ids, mode), ..o0 };
                    assert(self@.outputs =~= s2.outputs.update(i as int, o1));
                    assert(self@ =~= s2.with_output(i as int, o1));
                }
                changed = true;
            }
            i += 1;
        }
        let ghost s3 = self@;
        let places = self.places();
        self.relayout_physical();
        let ghost t = self@;
        let shifted = self.is_moved(&places);
        assert(shifted == moved(s3.outputs, t.outputs)) by {
            if shifted {
                let k = choose|k: int|
                    0 <= k < t.outputs.len() && #[trigger] places@[k] != (t.outputs[k].x, t.outputs[k].y);
                assert(s3.outputs[k].x != t.outputs[k].x || s3.outputs[k].y != t.outputs[k].y);
            }
            assert forall|k: int| 0 <= k < s3.outputs.len() && ((#[trigger] s3.outputs[k]).x != t.outputs[k].x
                || s3.outputs[k].y != t.outputs[k].y) implies shifted by {
                assert(places@[k] != (t.outputs[k].x, t.outputs[k].y));
            }
        }
        let bounds = self.recompute_bounds();
        proof {
            lemma_put_back_keeps(s0, n as int);
            lemma_bump_differs(t);
        }
        if changed && !bounds {
            self.bump();
        }
        proof {
            if ids_fresh(s0) {
                lemma_put_back_sizes(s0, n as int);
            }
        }
        changed || shifted || bounds
    }

    /// Where the outputs are.
    fn places(&self) -> (v: Vec<(i16, i16)>)
        ensures
            v@.len() == self@.outputs.len(),
            forall|i: int| 0 <= i < v@.len() ==> #[trigger] v@[i] == (self@.outputs[i].x, self@.outputs[i].y),
    {
        let mut v: Vec<(i16, i16)> = Vec::new();
        let mut i: usize = 0;
        while i < self.outputs.len()
            invariant
                i <= self.outputs.len(),
                v@.len() == i,
                forall|j: int| 0 <= j < i ==> #[trigger] v@[j] == (self@.outputs[j].x, self@.outputs[j].y),
            decreases self.outputs.len() - i,
        {
            v.push((self.outputs[i].x, self.outputs[i].y));
            i += 1;
        }
        v
    }

    /// Whether one of the outputs is elsewhere than it was.
    fn is_moved(&self, places: &Vec<(i16, i16)>) -> (b: bool)
        requires
            places@.len() == self@.outputs.len(),
        ensures
            b == exists|i: int|
                0 <= i < self@.outputs.len() && #[trigger] places@[i] != (self@.outputs[i].x, self@.outputs[i].y),
    {
        let mut i: usize = 0;
        while i < self.outputs.len()
            invariant
                i <= self.outputs.len(),
                places@.len() == self@.outputs.len(),
                forall|j: int|
                    0 <= j < i ==> #[trigger] places@[j] == (self@.outputs[j].x, self@.outputs[j].y),
            decreases self.outputs.len() - i,
        {
            let (x, y): (i16, i16) = places[i];
            if x != self.outputs[i].x || y != self.outputs[i].y {
                assert(places@[i as int] != (self@.outputs[i as int].x, self@.outputs[i as int].y));
                return true;
            }
            i += 1;
        }
        false
    }

    /// After the compositor drove a Wayland output to a client's requested
    /// size, switches its CRTC to the mode the client actually asked for (the
    /// wl_output sync gave it a native mode of the same size), so the client
    /// reads back what it set. A no-op unless the sizes agree.
    pub fn adopt_mode(&mut self, crtc: u32, mode: u32)
        ensures
            old(self).wf() ==> final(self).wf(),
            final(self)@ == old(self)@.adopted(crtc, mode),
    {
        let ghost s0 = self@;
        let (w, h) = match self.mode_size(mode) {
            Some(s) => s,
            None => {
                return ;
            },
        };
        let i: usize = match self.crtc_index(crtc) {
            Some(i) => i,
            None => {
                return ;
            },
        };
        let ghost o = s0.outputs[i as int];
        assert(o == self.outputs@[i as int]@);
        if self.outputs[i].width == w && self.outputs[i].height == h && self.outputs[i].mode != mode {
            // the native mode of that size stood for what the compositor
            // drives, which the client's mode now does
            let ghost p = native_of_size(mode, w, h);
            let mut marks: Vec<bool> = Vec::new();
            let mut k: usize = 0;
            while k < self.modes.len()
                invariant
                    k <= self.modes.len(),
                    marks@.len() == k,
                    p == native_of_size(mode, w, h),
                    forall|j: int| 0 <= j < k ==> #[trigger] marks@[j] == p(self.modes@[j]@),
                decreases self.modes.len() - k,
            {
                let m = &self.modes[k];
                marks.push(m.ours && m.info.id != mode && m.info.width == w && m.info.height == h);
                k += 1;
            }
            let native = self.ids_marked(&marks);
            proof {
                list::lemma_kept_is_only(self.modes@, |m: Mode| m@, marks@, p);
                assert(native@ == ids_of(list::only(s0.modes, p)));
            }
            if !list::holds(&self.outputs[i].mode_ids, mode) {
                self.outputs[i].mode_ids.push(mode);
            }
            self.outputs[i].mode = mode;
            list::drop_all(&mut self.outputs[i].mode_ids, &native);
            proof {
                let o1 = OutputView {
                    mode,
                    mode_ids: list::only(with_mode(o.mode_ids, mode), list::is_not_in(native@)),
                    ..o
                };
                assert(self@.outputs =~= s0.outputs.update(i as int, o1));
                assert(self@ =~= s0.with_output(i as int, o1));
                if ids_fresh(s0) {
                    lemma_fewer_stay_fresh(self@, in_use(self@.outputs), self@.pruned());
                }
            }
            self.prune_modes();
            self.bump();
        }
    }
}

/// A mode with another id.
pub open spec fn mode_is_not(id: u32) -> spec_fn(ModeView) -> bool {
    |m: ModeView| m.info.id != id
}

/// The output without the mode in its list.
pub open spec fn unlisted(mode: u32) -> spec_fn(OutputView) -> OutputView {
    |o: OutputView|
        OutputView { mode_ids: list::only(o.mode_ids, list::is_not_in(seq![mode])), ..o }
}

/// The names of the modes, one behind the other.
pub open spec fn names_of(modes: Seq<ModeView>) -> Seq<u8>
    decreases modes.len(),
{
    if modes.len() == 0 {
        Seq::empty()
    } else {
        names_of(modes.drop_last()) + modes.last().name
    }
}

/// The physical and logical rectangles of an output.
pub open spec fn rect_of(o: OutputView) -> OutputRect {
    OutputRect {
        px: o.x as i32,
        py: o.y as i32,
        pw: o.width as i32,
        ph: o.height as i32,
        lx: o.lx,
        ly: o.ly,
        lw: o.lw,
        lh: o.lh,
    }
}

proof fn lemma_bump_differs(s: ScreenView)
    ensures
        s.bumped() != s,
        s.rebounded() == s <==> s.bounds() == (s.width, s.height),
{
    assert(s.bumped().timestamp != s.timestamp);
    let (w, h) = s.bounds();
    if w != s.width || h != s.height {
        assert(s.rebounded().timestamp != s.timestamp);
    }
}

/// Putting outputs back leaves their sizes, their number and the screen's size.
proof fn lemma_put_back_keeps(s: ScreenView, n: int)
    requires
        0 <= n <= s.outputs.len(),
    ensures
        s.put_back(n).0.outputs.len() == s.outputs.len(),
        s.put_back(n).0.width == s.width,
        s.put_back(n).0.height == s.height,
        forall|i: int|
            0 <= i < s.outputs.len() ==> {
                let o = #[trigger] s.put_back(n).0.outputs[i];
                &&& o.width == s.outputs[i].width
                &&& o.height == s.outputs[i].height
                &&& o.wl_name == s.outputs[i].wl_name
            },
    decreases n,
{
    if n > 0 {
        lemma_put_back_keeps(s, n - 1);
    }
}

/// The screen is never smaller than a pixel nor larger than what is accepted, once
/// its bounds have been taken.
pub proof fn law_bounds_are_accepted(s: ScreenView)
    ensures
        1 <= s.rebounded().width <= MAX_SCREEN,
        1 <= s.rebounded().height <= MAX_SCREEN,
{
}

/// Reconfiguring a CRTC leaves the size of the screen alone.
pub proof fn law_crtc_leaves_the_screen_size(s: ScreenView, i: int, x: i16, y: i16, mode: u32)
    ensures
        s.with_crtc(i, x, y, mode).width == s.width,
        s.with_crtc(i, x, y, mode).height == s.height,
{
}

/// After pruning, every native mode is listed by an output, and no client's mode is
/// lost.
pub proof fn law_pruned_modes_are_in_use(s: ScreenView, m: ModeView)
    ensures
        s.pruned().modes.contains(m) <==> s.modes.contains(m) && (!m.ours || listed(s.outputs, m.info.id)),
{
    list::lemma_only_holds(s.modes, in_use(s.outputs));
}

/// A mode that stays keeps its size through pruning.
proof fn lemma_prune_keeps_size(modes: Seq<ModeView>, outputs: Seq<OutputView>, id: u32)
    requires
        listed(outputs, id),
    ensures
        size_of_mode(list::only(modes, in_use(outputs)), id) == size_of_mode(modes, id),
    decreases modes.len(),
{
    let p = in_use(outputs);
    if modes.len() > 0 {
        let r = modes.drop_last();
        let m = modes.last();
        lemma_prune_keeps_size(r, outputs, id);
        list::lemma_first_index(r, mode_is(id));
        list::lemma_first_index(list::only(r, p), mode_is(id));
        if p(m) {
            assert(list::only(modes, p).drop_last() =~= list::only(r, p));
        }
    }
}

/// What a screen says of a mode does not depend on modes behind it.
proof fn lemma_native_mode_size(s: ScreenView, width: u16, height: u16, refresh_mhz: u32)
    requires
        forall|i: int| 0 <= i < s.modes.len() ==> (#[trigger] s.modes[i]).info.id != s.next_id,
        0 <= s.next_id <= u32::MAX,
    ensures
        size_of_mode(s.with_native_mode(width, height, refresh_mhz).modes, s.next_id as u32) == Some((width, height)),
{
    let t = s.with_native_mode(width, height, refresh_mhz).modes;
    list::lemma_first_index_is(t, mode_is(s.next_id as u32), s.modes.len() as int);
}

/// Ids below `next_id` are all that modes have: a new id is never in use.
pub open spec fn ids_fresh(s: ScreenView) -> bool {
    forall|i: int| 0 <= i < s.modes.len() ==> (#[trigger] s.modes[i]).info.id < s.next_id
}

/// Leaving modes out keeps ids fresh.
proof fn lemma_fewer_stay_fresh(s: ScreenView, p: spec_fn(ModeView) -> bool, t: ScreenView)
    requires
        ids_fresh(s),
        t.modes == list::only(s.modes, p),
        t.next_id >= s.next_id,
    ensures
        ids_fresh(t),
{
    list::lemma_only_elements(s.modes, p);
    assert forall|i: int| 0 <= i < t.modes.len() implies (#[trigger] t.modes[i]).info.id < t.next_id by {
        let k = s.modes.index_of(t.modes[i]);
        assert(s.modes[k] == t.modes[i]);
    }
}

proof fn lemma_native_stays_fresh(s: ScreenView, width: u16, height: u16, refresh_mhz: u32)
    requires
        ids_fresh(s),
        0 <= s.next_id <= u32::MAX,
    ensures
        ids_fresh(s.with_native_mode(width, height, refresh_mhz)),
{
}

/// Following the compositor keeps ids fresh.
proof fn lemma_sync_stays_fresh(
    s: ScreenView,
    wl_name: u32,
    name: Seq<u8>,
    lx: i32,
    ly: i32,
    lw: i32,
    lh: i32,
    width: u16,
    height: u16,
    refresh_mhz: u32,
)
    requires
        ids_fresh(s),
        0 <= s.next_id,
        s.next_id + 3 <= u32::MAX,
    ensures
        ids_fresh(s.synced(wl_name, name, lx, ly, lw, lh, width, height, refresh_mhz)),
{
    lemma_native_stays_fresh(s, width, height, refresh_mhz);
    match list::first_index(s.outputs, mirrors(wl_name)) {
        Some(i) => {
            let (s1, mode) = s.mode_for(i, width, height, refresh_mhz);
            let o = s.outputs[i];
            let s2 = s1.with_output(
                i,
                OutputView { lx, ly, lw, lh, width, height, mode, mode_ids: with_mode(o.mode_ids, mode), ..o },
            );
            let o2 = s2.outputs[i];
            let stale = ids_of(list::only(s2.modes, stale_for(o2.mode_ids, mode)));
            let s3 = s2.with_output(
                i,
                OutputView { mode_ids: list::only(o2.mode_ids, list::is_not_in(stale)), ..o2 },
            );
            lemma_fewer_stay_fresh(s3, in_use(s3.outputs), s3.pruned());
        },
        None => {
            let j = s.joined(wl_name, name, lx, ly, lw, lh, width, height, refresh_mhz);
            let n = s.with_native_mode(width, height, refresh_mhz);
            lemma_fewer_stay_fresh(ScreenView { next_id: s.next_id + 3, ..n }, in_use(j.outputs), j);
        },
    }
}

/// Output `i` of a screen that the compositor was followed on has a mode of the size
/// that it is driven at, and lists it.
pub proof fn law_driven_output_has_its_size(
    s: ScreenView,
    i: int,
    lx: i32,
    ly: i32,
    lw: i32,
    lh: i32,
    width: u16,
    height: u16,
    refresh_mhz: u32,
)
    requires
        0 <= i < s.outputs.len(),
        ids_fresh(s),
        0 <= s.next_id <= u32::MAX,
    ensures
        ({
            let t = s.driven(i, lx, ly, lw, lh, width, height, refresh_mhz);
            &&& t.outputs.len() == s.outputs.len()
            &&& t.unchanged(i, lx, ly, lw, lh, width, height)
            &&& t.outputs[i].mode_ids.contains(t.outputs[i].mode)
            &&& t.outputs[i].wl_name == s.outputs[i].wl_name
        }),
{
    let (s1, mode) = s.mode_for(i, width, height, refresh_mhz);
    let o = s.outputs[i];
    lemma_native_mode_size(s, width, height, refresh_mhz);
    list::lemma_first_index(o.mode_ids, has_size(s.modes, width, height));
    let o1 = OutputView { lx, ly, lw, lh, width, height, mode, mode_ids: with_mode(o.mode_ids, mode), ..o };
    let s2 = s1.with_output(i, o1);
    assert(o1.mode_ids.contains(mode)) by {
        if !o.mode_ids.contains(mode) {
            assert(o1.mode_ids[o.mode_ids.len() as int] == mode);
        }
    }
    assert(size_of_mode(s2.modes, mode) == Some((width, height)));
    let p = stale_for(o1.mode_ids, mode);
    let stale = ids_of(list::only(s2.modes, p));
    if stale.len() > 0 {
        list::lemma_only_elements(s2.modes, p);
        assert(!stale.contains(mode)) by {
            if stale.contains(mode) {
                let k = choose|k: int| 0 <= k < stale.len() && stale[k] == mode;
                assert(p(list::only(s2.modes, p)[k]));
            }
        }
        list::lemma_only_holds(o1.mode_ids, list::is_not_in(stale));
        let o2 = OutputView { mode_ids: list::only(o1.mode_ids, list::is_not_in(stale)), ..o1 };
        assert(o2.mode_ids.contains(mode));
        let s3 = s2.with_output(i, o2);
        assert(s3.outputs[i].mode_ids.contains(mode));
        assert(listed(s3.outputs, mode));
        lemma_prune_keeps_size(s3.modes, s3.outputs, mode);
    }
}

/// The same report of the compositor twice: the second changes nothing.
pub proof fn law_second_sync_is_a_no_op(
    s: ScreenView,
    wl_name: u32,
    name: Seq<u8>,
    lx: i32,
    ly: i32,
    lw: i32,
    lh: i32,
    width: u16,
    height: u16,
    refresh_mhz: u32,
)
    requires
        wl_name != 0,
        ids_fresh(s),
        0 <= s.next_id,
        s.next_id + 3 <= u32::MAX,
    ensures
        ({
            let t = s.synced(wl_name, name, lx, ly, lw, lh, width, height, refresh_mhz);
            &&& !t.sync_changes(wl_name, lx, ly, lw, lh, width, height)
            &&& t.synced(wl_name, name, lx, ly, lw, lh, width, height, refresh_mhz) == t
        }),
{
    let t = s.synced(wl_name, name, lx, ly, lw, lh, width, height, refresh_mhz);
    list::lemma_first_index(s.outputs, mirrors(wl_name));
    match list::first_index(s.outputs, mirrors(wl_name)) {
        Some(i) => {
            law_driven_output_has_its_size(s, i, lx, ly, lw, lh, width, height, refresh_mhz);
            if !s.unchanged(i, lx, ly, lw, lh, width, height) {
                let d = s.driven(i, lx, ly, lw, lh, width, height, refresh_mhz);
                assert forall|j: int| 0 <= j < d.outputs.len() implies (#[trigger] d.outputs[j]).wl_name
                    == s.outputs[j].wl_name by {}
                assert forall|j: int| 0 <= j < i implies !mirrors(wl_name)(#[trigger] t.outputs[j]) by {
                    assert(!mirrors(wl_name)(s.outputs[j]));
                    assert(d.outputs[j].wl_name == s.outputs[j].wl_name);
                }
                list::lemma_first_index_is(t.outputs, mirrors(wl_name), i);
            }
        },
        None => {
            let j = s.joined(wl_name, name, lx, ly, lw, lh, width, height, refresh_mhz);
            let n = s.with_native_mode(width, height, refresh_mhz);
            lemma_native_mode_size(s, width, height, refresh_mhz);
            let mode = s.next_id as u32;
            let all = list::only(s.outputs, not_mirroring(0));
            list::lemma_only_elements(s.outputs, not_mirroring(0));
            let last = all.len() as int;
            assert(exists|o: OutputView| o.wl_name == wl_name && o.mode == mode && j.outputs == #[trigger] all.push(o)) by {
                let o = j.outputs.last();
                let pushed = s.outputs.push(o);
                assert(pushed.drop_last() =~= s.outputs);
                assert(j.outputs == all.push(o));
            }
            assert(j.outputs.drop_last() =~= all);
            assert(j.outputs[last].wl_name == wl_name);
            assert(j.outputs[last].mode_ids =~= seq![mode]);
            assert(j.outputs[last].mode_ids.contains(mode)) by {
                assert(j.outputs[last].mode_ids[0] == mode);
            }
            assert(listed(j.outputs, mode));
            lemma_prune_keeps_size(n.modes, j.outputs, mode);
            assert forall|k: int| 0 <= k < last implies !mirrors(wl_name)(#[trigger] t.outputs[k]) by {
                assert(j.outputs[k] == all[k]);
                assert(s.outputs.contains(all[k]));
                let m = choose|m: int| 0 <= m < s.outputs.len() && s.outputs[m] == all[k];
                assert(!mirrors(wl_name)(s.outputs[m]));
            }
            list::lemma_first_index_is(t.outputs, mirrors(wl_name), last);
        },
    }
}

/// After a rollback every Wayland output is in a mode of the size that it is driven
/// at.
pub proof fn law_restored_outputs_have_their_size(s: ScreenView, i: int)
    requires
        ids_fresh(s),
        0 <= s.next_id,
        s.next_id + s.outputs.len() <= u32::MAX,
        0 <= i < s.outputs.len(),
        s.outputs[i].wl_name != 0,
    ensures
        s.restored().outputs.len() == s.outputs.len(),
        size_of_mode(s.restored().modes, s.restored().outputs[i].mode) == Some(
            (s.outputs[i].width, s.outputs[i].height),
        ),
        (s.restored().width, s.restored().height) == s.restored().bounds(),
{
    lemma_put_back_keeps(s, s.outputs.len() as int);
    lemma_put_back_sizes(s, s.outputs.len() as int);
    let p = s.put_back(s.outputs.len() as int).0.relaid();
    assert(p.bumped().outputs == p.outputs);
}

proof fn lemma_put_back_sizes(s: ScreenView, n: int)
    requires
        ids_fresh(s),
        0 <= s.next_id,
        s.next_id + n <= u32::MAX,
        0 <= n <= s.outputs.len(),
    ensures
        ids_fresh(s.put_back(n).0),
        s.next_id <= s.put_back(n).0.next_id <= s.next_id + n,
        s.put_back(n).0.outputs.len() == s.outputs.len(),
        forall|i: int|
            0 <= i < n && s.outputs[i].wl_name != 0 ==> size_of_mode(
                s.put_back(n).0.modes,
                (#[trigger] s.put_back(n).0.outputs[i]).mode,
            ) == Some((s.outputs[i].width, s.outputs[i].height)),
    decreases n,
{
    if n > 0 {
        lemma_put_back_sizes(s, n - 1);
        lemma_put_back_keeps(s, n - 1);
        let q = s.put_back(n - 1).0;
        let r = s.put_back(n).0;
        let o = q.outputs[n - 1];
        if o.wl_name != 0 && size_of_mode(q.modes, o.mode) != Some((o.width, o.height)) {
            let (t, mode) = q.mode_for(n - 1, o.width, o.height, 0);
            list::lemma_first_index(o.mode_ids, has_size(q.modes, o.width, o.height));
            lemma_native_mode_size(q, o.width, o.height, 0);
            assert forall|i: int| 0 <= i < n && s.outputs[i].wl_name != 0 implies size_of_mode(
                r.modes,
                (#[trigger] r.outputs[i]).mode,
            ) == Some((s.outputs[i].width, s.outputs[i].height)) by {
                if i < n - 1 {
                    assert(r.outputs[i] == q.outputs[i]);
                    assert(t.modes.take(q.modes.len() as int) =~= q.modes);
                    lemma_size_kept(q.modes, t.modes, q.outputs[i].mode);
                }
            }
        }
    }
}

/// A mode behind the others hides none of them.
proof fn lemma_size_kept(a: Seq<ModeView>, b: Seq<ModeView>, id: u32)
    requires
        size_of_mode(a, id) is Some,
        b.len() >= a.len(),
        b.take(a.len() as int) == a,
    ensures
        size_of_mode(b, id) == size_of_mode(a, id),
{
    list::lemma_first_index(a, mode_is(id));
    let i = list::first_index(a, mode_is(id))->0;
    assert(forall|j: int| 0 <= j < a.len() ==> b.take(a.len() as int)[j] == b[j]);
    list::lemma_first_index_is(b, mode_is(id), i);
}

/// Outputs that touch logically do not overlap physically: one that begins where
/// another ends starts no earlier than where that other's pixels end.
pub proof fn law_neighbours_do_not_overlap(items: Seq<(int, int, int)>, i: int, j: int)
    requires
        0 <= i < items.len(),
        0 <= j < items.len(),
        items[i].1 > 0,
        items[j].0 == items[i].0 + items[i].1,
    ensures
        packed(items)[j] >= packed(items)[i] + items[i].2,
{
    let n = items.len() as int;
    let ord = ordered(items, n);
    lemma_ordered_sorted(items, n);
    lemma_ordered_has_all(items, n, i);
    lemma_ordered_has_all(items, n, j);
    let a = choose|a: int| 0 <= a < ord.len() && ord[a] == i;
    let b = choose|b: int| 0 <= b < ord.len() && ord[b] == j;
    assert(a < b) by {
        if b < a {
            assert(items[ord[b]].0 <= items[ord[a]].0);
        }
    }
    lemma_packing(items, ord, b);
    lemma_packing_keeps(items, ord, b + 1, j);
    lemma_packing_keeps(items, ord, a + 1, i);
    let st = packing(items, ord.take(b));
    assert(ord.take(b + 1).drop_last() =~= ord.take(b));
    assert(ord.take(ord.len() as int) =~= ord);
    assert(ord.take(b)[a] == i);
    lemma_packing_keeps_to(items, ord, a + 1, b, i);
}

spec fn sorted_apart(items: Seq<(int, int, int)>, ord: Seq<int>) -> bool {
    &&& forall|a: int, b: int| 0 <= a < b < ord.len() ==> items[#[trigger] ord[a]].0 <= items[#[trigger] ord[b]].0
    &&& forall|a: int, b: int| 0 <= a < b < ord.len() ==> #[trigger] ord[a] != #[trigger] ord[b]
}

proof fn lemma_ordered_sorted(items: Seq<(int, int, int)>, n: int)
    requires
        0 <= n <= items.len(),
    ensures
        sorted_apart(items, ordered(items, n)),
        forall|a: int| 0 <= a < ordered(items, n).len() ==> 0 <= #[trigger] ordered(items, n)[a] < n,
    decreases n,
{
    if n > 0 {
        lemma_ordered_sorted(items, n - 1);
        lemma_placed_sorted(items, ordered(items, n - 1), n - 1);
    }
}

proof fn lemma_placed_sorted(items: Seq<(int, int, int)>, ord: Seq<int>, i: int)
    requires
        0 <= i,
        sorted_apart(items, ord),
        forall|a: int| 0 <= a < ord.len() ==> 0 <= #[trigger] ord[a] < i,
    ensures
        sorted_apart(items, placed(items, ord, i)),
        forall|a: int| 0 <= a < placed(items, ord, i).len() ==> 0 <= #[trigger] placed(items, ord, i)[a] <= i,
        forall|a: int|
            0 <= a < placed(items, ord, i).len() ==> placed(items, ord, i)[a] == i || ord.contains(
                #[trigger] placed(items, ord, i)[a],
            ),
    decreases ord.len(),
{
    let p = placed(items, ord, i);
    if ord.len() == 0 || items[ord.last()].0 <= items[i].0 {
        assert forall|a: int| 0 <= a < p.len() implies p[a] == i || ord.contains(#[trigger] p[a]) by {
            if a < ord.len() {
                assert(ord[a] == p[a]);
            }
        }
        assert forall|a: int, b: int| 0 <= a < b < p.len() implies items[#[trigger] p[a]].0 <= items[#[trigger] p[b]].0 by {
            if b == ord.len() {
                if a < ord.len() - 1 {
                    assert(items[ord[a]].0 <= items[ord[ord.len() - 1]].0);
                }
            }
        }
    } else {
        let r = ord.drop_last();
        let q = placed(items, r, i);
        assert(sorted_apart(items, r));
        lemma_placed_sorted(items, r, i);
        assert forall|a: int| 0 <= a < p.len() implies p[a] == i || ord.contains(#[trigger] p[a]) by {
            if a < q.len() {
                if q[a] != i {
                    assert(r.contains(q[a]));
                    let k = choose|k: int| 0 <= k < r.len() && r[k] == q[a];
                    assert(ord[k] == q[a]);
                }
            } else {
                assert(ord[ord.len() - 1] == p[a]);
            }
        }
        assert forall|a: int, b: int| 0 <= a < b < p.len() implies items[#[trigger] p[a]].0 <= items[#[trigger] p[b]].0 && p[a] != p[b] by {
            if b == q.len() {
                if q[a] != i {
                    assert(r.contains(q[a]));
                    let k = choose|k: int| 0 <= k < r.len() && r[k] == q[a];
                    assert(ord[k] == q[a]);
                    assert(items[ord[k]].0 <= items[ord[ord.len() - 1]].0);
                    assert(ord[k] != ord[ord.len() - 1]);
                }
            }
        }
    }
}

/// Every item put down so far has its physical end at or before its end's edge.
proof fn lemma_packing(items: Seq<(int, int, int)>, ord: Seq<int>, k: int)
    requires
        0 <= k <= ord.len(),
        sorted_apart(items, ord),
    ensures
        ({
            let st = packing(items, ord.take(k));
            forall|a: int|
                0 <= a < k ==> {
                    let i = #[trigger] ord[a];
                    let end = items[i].0 + items[i].1;
                    st.1.dom().contains(i) && st.0.dom().contains(end) && st.0[end] >= st.1[i] + items[i].2
                }
        }),
    decreases k,
{
    if k > 0 {
        lemma_packing(items, ord, k - 1);
        assert(ord.take(k).drop_last() =~= ord.take(k - 1));
        let st0 = packing(items, ord.take(k - 1));
        let st = packing(items, ord.take(k));
        assert(st == put_down(st0, items[ord[k - 1]], ord[k - 1]));
        assert forall|a: int| 0 <= a < k implies {
            let i = #[trigger] ord[a];
            let end = items[i].0 + items[i].1;
            st.1.dom().contains(i) && st.0.dom().contains(end) && st.0[end] >= st.1[i] + items[i].2
        } by {
            if a < k - 1 {
                assert(ord[a] != ord[k - 1]);
            }
        }
    }
}

/// A place stays once it is given.
proof fn lemma_packing_keeps_to(items: Seq<(int, int, int)>, ord: Seq<int>, k: int, n: int, i: int)
    requires
        0 < k <= n <= ord.len(),
        sorted_apart(items, ord),
        ord[k - 1] == i,
    ensures
        packing(items, ord.take(n)).1[i] == packing(items, ord.take(k)).1[i],
    decreases n - k,
{
    if k < n {
        lemma_packing_keeps_to(items, ord, k, n - 1, i);
        assert(ord.take(n).drop_last() =~= ord.take(n - 1));
        assert(ord[n - 1] != ord[k - 1]);
    }
}

proof fn lemma_packing_keeps(items: Seq<(int, int, int)>, ord: Seq<int>, k: int, i: int)
    requires
        0 < k <= ord.len(),
        sorted_apart(items, ord),
        ord[k - 1] == i,
    ensures
        packing(items, ord).1[i] == packing(items, ord.take(k)).1[i],
{
    lemma_packing_keeps_to(items, ord, k, ord.len() as int, i);
    assert(ord.take(ord.len() as int) =~= ord);
}

/// `i` ends where `j` begins or before it, and no other item begins or ends from there to
/// there: `j` is the next thing on the axis behind `i`.
pub open spec fn follows(starts: Seq<int>, lens: Seq<int>, i: int, j: int) -> bool {
    let end = starts[i] + lens[i];
    &&& 0 <= i < starts.len() && 0 <= j < starts.len()
    &&& lens[i] > 0
    &&& end <= starts[j]
    &&& forall|k: int| 0 <= k < starts.len() && k != i ==> !(end <= #[trigger] starts[k] + lens[k] <= starts[j])
    &&& forall|k: int| 0 <= k < starts.len() && k != j ==> !(end < #[trigger] starts[k] <= starts[j])
}

spec fn starts_of(items: Seq<(int, int, int)>) -> Seq<int> {
    items.map_values(|t: (int, int, int)| t.0)
}

spec fn lens_of(items: Seq<(int, int, int)>) -> Seq<int> {
    items.map_values(|t: (int, int, int)| t.1)
}

proof fn lemma_least(s: Seq<int>)
    ensures
        s.len() == 0 <==> layout::least(s) is None,
        layout::least(s) matches Some(m) ==> s.contains(m) && forall|i: int| 0 <= i < s.len() ==> m <= #[trigger] s[i],
    decreases s.len(),
{
    if s.len() > 0 {
        let r = s.drop_last();
        lemma_least(r);
        assert forall|i: int| 0 <= i < s.len() implies layout::least(s)->0 <= #[trigger] s[i] by {
            if i < r.len() {
                assert(r[i] == s[i]);
            }
        }
        if r.len() > 0 {
            let m = layout::least(r)->0;
            let i = r.index_of(m);
            assert(s[i] == m);
        }
        assert(s.contains(s.last()));
    }
}

/// The edges are the least start and where the items put down so far begin and end.
proof fn lemma_edges(items: Seq<(int, int, int)>, ord: Seq<int>, k: int, d: int)
    requires
        0 <= k <= ord.len(),
        packing(items, ord.take(k)).0.dom().contains(d),
    ensures
        Some(d) == layout::least(starts_of(items)) || exists|a: int|
            0 <= a < k && (items[#[trigger] ord[a]].0 == d || items[ord[a]].0 + items[ord[a]].1 == d),
    decreases k,
{
    if k > 0 {
        assert(ord.take(k).drop_last() =~= ord.take(k - 1));
        let st = packing(items, ord.take(k - 1));
        if st.0.dom().contains(d) {
            lemma_edges(items, ord, k - 1, d);
        } else {
            let a = k - 1;
            assert(items[ord[a]].0 == d || items[ord[a]].0 + items[ord[a]].1 == d);
        }
    }
}

/// Where item `i`, the `a`th, ends, and no other one does, there is an edge at its
/// physical end from then on.
proof fn lemma_edge_of_end(items: Seq<(int, int, int)>, ord: Seq<int>, a: int, k: int)
    requires
        0 <= a < k <= ord.len(),
        sorted_apart(items, ord),
        items[ord[a]].1 > 0,
        forall|b: int| 0 <= b < ord.len() ==> 0 <= #[trigger] ord[b] < items.len(),
        forall|b: int|
            0 <= b < ord.len() && b != a ==> items[#[trigger] ord[b]].0 + items[ord[b]].1 != items[ord[a]].0
                + items[ord[a]].1,
    ensures
        ({
            let i = ord[a];
            let end = items[i].0 + items[i].1;
            let st = packing(items, ord.take(k));
            st.0.dom().contains(end) && st.0[end] == st.1[i] + items[i].2
        }),
    decreases k,
{
    assert(ord.take(k).drop_last() =~= ord.take(k - 1));
    let i = ord[a];
    let end = items[i].0 + items[i].1;
    let st = packing(items, ord.take(k - 1));
    if a < k - 1 {
        lemma_edge_of_end(items, ord, a, k - 1);
        assert(ord[a] != ord[k - 1]);
    } else {
        if st.0.dom().contains(end) {
            lemma_edges(items, ord, k - 1, end);
            lemma_least(starts_of(items));
            assert(starts_of(items)[i] == items[i].0);
        }
    }
}

/// The next item on an axis begins where the one before it ends, or as far behind that as
/// it does logically.
proof fn lemma_next_item(items: Seq<(int, int, int)>, i: int, j: int)
    requires
        follows(starts_of(items), lens_of(items), i, j),
    ensures
        packed(items)[j] == packed(items)[i] + items[i].2 + (items[j].0 - items[i].0 - items[i].1),
{
    let n = items.len() as int;
    let ord = ordered(items, n);
    let (starts, lens) = (starts_of(items), lens_of(items));
    lemma_ordered_sorted(items, n);
    lemma_ordered_has_all(items, n, i);
    lemma_ordered_has_all(items, n, j);
    let a = choose|a: int| 0 <= a < ord.len() && ord[a] == i;
    let b = choose|b: int| 0 <= b < ord.len() && ord[b] == j;
    assert(a < b) by {
        if b < a {
            assert(items[ord[b]].0 <= items[ord[a]].0);
        }
    }
    let end = items[i].0 + items[i].1;
    assert forall|c: int| 0 <= c < ord.len() && c != a implies items[#[trigger] ord[c]].0 + items[ord[c]].1 != end by {
        assert(ord[c] != ord[a]) by {
            if c < a {
                assert(ord[c] != ord[a]);
            } else {
                assert(ord[a] != ord[c]);
            }
        }
        assert(starts[ord[c]] == items[ord[c]].0 && lens[ord[c]] == items[ord[c]].1);
    }
    lemma_edge_of_end(items, ord, a, b);
    let st = packing(items, ord.take(b));
    let at = items[j].0;
    assert forall|d: int| #[trigger] st.0.dom().contains(d) && d <= at implies d <= end by {
        lemma_edges(items, ord, b, d);
        lemma_least(starts);
        assert(starts[i] == items[i].0);
        if Some(d) != layout::least(starts) {
            let c = choose|c: int| 0 <= c < b && (items[#[trigger] ord[c]].0 == d || items[ord[c]].0 + items[ord[c]].1 == d);
            assert(starts[ord[c]] == items[ord[c]].0 && lens[ord[c]] == items[ord[c]].1);
            assert(ord[c] != ord[b]);
            if ord[c] == i {
                assert(items[i].0 < end);
            }
        }
    }
    assert(edge_before(st.0, at, end));
    assert(locate(st.0, at) == st.0[end] + (at - end)) by {
        if !st.0.dom().contains(at) {
            let e = choose|e: int| edge_before(st.0, at, e);
            assert(edge_before(st.0, at, e));
            assert(e <= end && end <= e);
        }
    }
    assert(ord.take(b + 1).drop_last() =~= ord.take(b));
    lemma_packing_keeps(items, ord, b + 1, j);
    lemma_packing_keeps(items, ord, a + 1, i);
    lemma_packing_keeps_to(items, ord, a + 1, b, i);
}

/// Among the edges that are not past a coordinate there is a last one.
proof fn lemma_last_edge(s: Set<int>, at: int, first: int) -> (e: int)
    requires
        s.finite(),
        s.contains(first),
        first <= at,
    ensures
        s.contains(e),
        e <= at,
        forall|d: int| #[trigger] s.contains(d) && d <= at ==> d <= e,
    decreases s.len(),
{
    let r = s.remove(first);
    if exists|d: int| #[trigger] r.contains(d) && d <= at {
        let d = choose|d: int| #[trigger] r.contains(d) && d <= at;
        let e = lemma_last_edge(r, at, d);
        if e >= first {
            assert forall|d: int| #[trigger] s.contains(d) && d <= at implies d <= e by {
                if d != first {
                    assert(r.contains(d));
                }
            }
            e
        } else {
            assert forall|d: int| #[trigger] s.contains(d) && d <= at implies d <= first by {
                if d != first {
                    assert(r.contains(d));
                }
            }
            first
        }
    } else {
        assert forall|d: int| #[trigger] s.contains(d) && d <= at implies d <= first by {
            if d != first {
                assert(r.contains(d));
            }
        }
        first
    }
}

/// Where physical lengths are logical ones, each edge is as far from the first as it is
/// logically.
proof fn lemma_unscaled_edges(items: Seq<(int, int, int)>, ord: Seq<int>, k: int, m: int)
    requires
        0 <= k <= ord.len(),
        sorted_apart(items, ord),
        forall|b: int| 0 <= b < ord.len() ==> 0 <= #[trigger] ord[b] < items.len(),
        forall|i: int| 0 <= i < items.len() ==> (#[trigger] items[i]).1 == items[i].2,
        layout::least(starts_of(items)) == Some(m),
    ensures
        ({
            let st = packing(items, ord.take(k));
            &&& st.0.dom().finite()
            &&& st.0.dom().contains(m)
            &&& forall|d: int| #[trigger] st.0.dom().contains(d) ==> st.0[d] == d - m
            &&& forall|a: int|
                0 <= a < k ==> st.1.dom().contains(#[trigger] ord[a]) && st.1[ord[a]] == items[ord[a]].0 - m
        }),
    decreases k,
{
    if k > 0 {
        lemma_unscaled_edges(items, ord, k - 1, m);
        assert(ord.take(k).drop_last() =~= ord.take(k - 1));
        let st = packing(items, ord.take(k - 1));
        let i = ord[k - 1];
        lemma_least(starts_of(items));
        assert(starts_of(items)[i] == items[i].0);
        assert(items[i].1 == items[i].2);
        assert(locate(st.0, items[i].0) == items[i].0 - m) by {
            let e = lemma_last_edge(st.0.dom(), items[i].0, m);
            assert(edge_before(st.0, items[i].0, e));
        }
        let after = packing(items, ord.take(k));
        assert(after == put_down(st, items[i], i));
        assert forall|a: int| 0 <= a < k implies after.1.dom().contains(#[trigger] ord[a]) && after.1[ord[a]]
            == items[ord[a]].0 - m by {
            if a < k - 1 {
                assert(ord[a] != ord[k - 1]);
            }
        }
    } else {
        assert(ord.take(0) =~= Seq::empty());
        assert(packing(items, ord.take(0)).0 == first_edge(items));
    }
}

/// Where physical lengths are logical ones, each item is as far from the first as it is
/// logically.
proof fn lemma_unscaled_items(items: Seq<(int, int, int)>, i: int, m: int)
    requires
        0 <= i < items.len(),
        forall|k: int| 0 <= k < items.len() ==> (#[trigger] items[k]).1 == items[k].2,
        forall|k: int| 0 <= k < items.len() ==> m <= (#[trigger] items[k]).0,
        exists|k: int| 0 <= k < items.len() && m == (#[trigger] items[k]).0,
    ensures
        packed(items)[i] == items[i].0 - m,
{
    let n = items.len() as int;
    let ord = ordered(items, n);
    let starts = starts_of(items);
    lemma_least(starts);
    assert(layout::least(starts) == Some(m)) by {
        let l = layout::least(starts)->0;
        let k = choose|k: int| 0 <= k < items.len() && m == (#[trigger] items[k]).0;
        assert(starts[k] == m);
        let h = starts.index_of(l);
        assert(items[h].0 == l);
    }
    lemma_ordered_sorted(items, n);
    lemma_ordered_has_all(items, n, i);
    let a = choose|a: int| 0 <= a < ord.len() && ord[a] == i;
    lemma_unscaled_edges(items, ord, ord.len() as int, m);
    assert(ord.take(ord.len() as int) =~= ord);
    assert(packing(items, ord).1[ord[a]] == items[ord[a]].0 - m);
}

/// No edge and no place is negative.
proof fn lemma_places(items: Seq<(int, int, int)>, ord: Seq<int>, k: int)
    requires
        0 <= k <= ord.len(),
        sorted_apart(items, ord),
        forall|b: int| 0 <= b < ord.len() ==> 0 <= #[trigger] ord[b] < items.len(),
        forall|i: int| 0 <= i < items.len() ==> (#[trigger] items[i]).2 >= 0,
    ensures
        ({
            let st = packing(items, ord.take(k));
            &&& forall|d: int| #[trigger] st.0.dom().contains(d) ==> st.0[d] >= 0
            &&& forall|a: int| 0 <= a < k ==> st.1.dom().contains(#[trigger] ord[a]) && st.1[ord[a]] >= 0
        }),
    decreases k,
{
    if k > 0 {
        lemma_places(items, ord, k - 1);
        assert(ord.take(k).drop_last() =~= ord.take(k - 1));
        let st = packing(items, ord.take(k - 1));
        let i = ord[k - 1];
        assert(items[i].2 >= 0);
        assert(locate(st.0, items[i].0) >= 0);
        let after = packing(items, ord.take(k));
        assert(after == put_down(st, items[i], i));
        assert forall|a: int| 0 <= a < k implies after.1.dom().contains(#[trigger] ord[a]) && after.1[ord[a]] >= 0 by {
            if a < k - 1 {
                assert(ord[a] != ord[k - 1]);
            }
        }
    } else {
        assert(ord.take(0) =~= Seq::empty());
        assert(packing(items, ord.take(0)).0 == first_edge(items));
    }
}

proof fn lemma_place(items: Seq<(int, int, int)>, i: int)
    requires
        0 <= i < items.len(),
        forall|i: int| 0 <= i < items.len() ==> (#[trigger] items[i]).2 >= 0,
    ensures
        packed(items)[i] >= 0,
{
    let n = items.len() as int;
    let ord = ordered(items, n);
    lemma_ordered_sorted(items, n);
    lemma_ordered_has_all(items, n, i);
    let a = choose|a: int| 0 <= a < ord.len() && ord[a] == i;
    lemma_places(items, ord, ord.len() as int);
    assert(ord.take(ord.len() as int) =~= ord);
    assert(packing(items, ord).1[ord[a]] >= 0);
}

/// Where every item has a length, items that begin together are put down together, and
/// those that begin first at 0.
proof fn lemma_aligned(items: Seq<(int, int, int)>, ord: Seq<int>, k: int, a: int)
    requires
        0 <= a < k <= ord.len(),
        sorted_apart(items, ord),
        forall|b: int| 0 <= b < ord.len() ==> 0 <= #[trigger] ord[b] < items.len(),
        forall|i: int| 0 <= i < items.len() ==> (#[trigger] items[i]).1 > 0,
        items[ord[a]].0 == items[ord[k - 1]].0,
    ensures
        ({
            let st = packing(items, ord.take(k));
            &&& st.0.dom().contains(items[ord[a]].0)
            &&& st.0[items[ord[a]].0] == st.1[ord[a]]
        }),
    decreases k,
{
    assert(ord.take(k).drop_last() =~= ord.take(k - 1));
    let st = packing(items, ord.take(k - 1));
    let i = ord[k - 1];
    assert(items[i].1 > 0);
    if a < k - 1 {
        assert(items[ord[a]].0 <= items[ord[k - 2]].0 <= items[ord[k - 1]].0) by {
            if a < k - 2 {
                assert(items[ord[a]].0 <= items[ord[k - 2]].0);
            }
            assert(items[ord[k - 2]].0 <= items[ord[k - 1]].0);
        }
        lemma_aligned(items, ord, k - 1, a);
        assert(ord[a] != ord[k - 1]);
    }
}

proof fn lemma_together(items: Seq<(int, int, int)>, i: int, j: int)
    requires
        0 <= i < items.len(),
        0 <= j < items.len(),
        items[i].0 == items[j].0,
        forall|i: int| 0 <= i < items.len() ==> (#[trigger] items[i]).1 > 0,
    ensures
        packed(items)[i] == packed(items)[j],
{
    let n = items.len() as int;
    let ord = ordered(items, n);
    lemma_ordered_sorted(items, n);
    lemma_ordered_has_all(items, n, i);
    lemma_ordered_has_all(items, n, j);
    let a = choose|a: int| 0 <= a < ord.len() && ord[a] == i;
    let b = choose|b: int| 0 <= b < ord.len() && ord[b] == j;
    lemma_packing_keeps(items, ord, a + 1, i);
    lemma_packing_keeps(items, ord, b + 1, j);
    if a < b {
        lemma_aligned(items, ord, b + 1, a);
        lemma_aligned(items, ord, b + 1, b);
        lemma_packing_keeps_to(items, ord, a + 1, b + 1, i);
    } else if b < a {
        lemma_aligned(items, ord, a + 1, a);
        lemma_aligned(items, ord, a + 1, b);
        lemma_packing_keeps_to(items, ord, b + 1, a + 1, j);
    }
}

proof fn lemma_first_item(items: Seq<(int, int, int)>, i: int)
    requires
        0 <= i < items.len(),
        forall|k: int| 0 <= k < items.len() ==> items[i].0 <= (#[trigger] items[k]).0,
        forall|k: int| 0 <= k < items.len() ==> (#[trigger] items[k]).1 > 0,
    ensures
        packed(items)[i] == 0,
{
    let n = items.len() as int;
    let ord = ordered(items, n);
    let starts = starts_of(items);
    lemma_ordered_sorted(items, n);
    lemma_ordered_has_all(items, n, i);
    let a = choose|a: int| 0 <= a < ord.len() && ord[a] == i;
    let f = ord[0];
    if a > 0 {
        assert(items[ord[0]].0 <= items[ord[a]].0);
    }
    assert(items[i].0 <= items[f].0);
    lemma_together(items, i, f);
    lemma_packing_keeps(items, ord, 1, f);
    lemma_least(starts);
    let l = layout::least(starts)->0;
    let h = starts.index_of(l);
    assert(items[h].0 == l);
    assert(starts[f] == items[f].0);
    assert(ord.take(1).drop_last() =~= Seq::empty());
    assert(packing(items, Seq::empty()).0 == first_edge(items));
}

/// Every output stands where the logical layout puts it.
pub open spec fn laid_out(s: ScreenView) -> bool {
    s.relaid().outputs == s.outputs
}

/// Output `j` is the next thing to the right of output `i` in the compositor's layout:
/// nothing else begins or ends from the logical column where `i` ends to that where `j`
/// begins.
pub open spec fn next_across(outputs: Seq<OutputView>, i: int, j: int) -> bool {
    follows(
        outputs.map_values(|o: OutputView| o.lx as int),
        outputs.map_values(|o: OutputView| o.lw as int),
        i,
        j,
    )
}

/// Output `j` is the next thing below output `i` in the compositor's layout.
pub open spec fn next_down(outputs: Seq<OutputView>, i: int, j: int) -> bool {
    follows(
        outputs.map_values(|o: OutputView| o.ly as int),
        outputs.map_values(|o: OutputView| o.lh as int),
        i,
        j,
    )
}

proof fn lemma_axes(s: ScreenView)
    ensures
        starts_of(axis_x(s.outputs)) =~= s.outputs.map_values(|o: OutputView| o.lx as int),
        lens_of(axis_x(s.outputs)) =~= s.outputs.map_values(|o: OutputView| o.lw as int),
        starts_of(axis_y(s.outputs)) =~= s.outputs.map_values(|o: OutputView| o.ly as int),
        lens_of(axis_y(s.outputs)) =~= s.outputs.map_values(|o: OutputView| o.lh as int),
        axis_x(s.relaid().outputs) =~= axis_x(s.outputs),
        axis_y(s.relaid().outputs) =~= axis_y(s.outputs),
        forall|i: int| 0 <= i < s.outputs.len() ==> (#[trigger] axis_x(s.outputs)[i]).2 == s.outputs[i].width,
        forall|i: int| 0 <= i < s.outputs.len() ==> (#[trigger] axis_y(s.outputs)[i]).2 == s.outputs[i].height,
{
}

/// An output that begins where the one on its left ends in the compositor's layout, and
/// where no other ends, begins where that one's pixels end; what lies between them
/// logically lies between them physically, too. Places saturate at 16 bits.
pub proof fn law_next_output_begins_where_its_neighbour_ends(s: ScreenView, i: int, j: int)
    requires
        laid_out(s),
        next_across(s.outputs, i, j),
    ensures
        s.outputs[j].x == geometry::min_of(
            s.outputs[i].x + s.outputs[i].width + (s.outputs[j].lx - (s.outputs[i].lx + s.outputs[i].lw)),
            i16::MAX as int,
        ),
{
    lemma_axes(s);
    let items = axis_x(s.outputs);
    lemma_next_item(items, i, j);
    lemma_place(items, i);
    assert(s.relaid().outputs[i] == s.outputs[i]);
    assert(s.relaid().outputs[j] == s.outputs[j]);
    assert(items[i].2 == s.outputs[i].width);
}

/// An output that begins where the one above it ends in the compositor's layout, and
/// where no other ends, begins where that one's pixels end; what lies between them
/// logically lies between them physically, too. Places saturate at 16 bits.
pub proof fn law_next_output_begins_where_the_one_above_ends(s: ScreenView, i: int, j: int)
    requires
        laid_out(s),
        next_down(s.outputs, i, j),
    ensures
        s.outputs[j].y == geometry::min_of(
            s.outputs[i].y + s.outputs[i].height + (s.outputs[j].ly - (s.outputs[i].ly + s.outputs[i].lh)),
            i16::MAX as int,
        ),
{
    lemma_axes(s);
    let items = axis_y(s.outputs);
    lemma_next_item(items, i, j);
    lemma_place(items, i);
    assert(s.relaid().outputs[i] == s.outputs[i]);
    assert(s.relaid().outputs[j] == s.outputs[j]);
    assert(items[i].2 == s.outputs[i].height);
}

/// Outputs that touch in the compositor's layout do not overlap on the screen, on either
/// axis, as far as places reach.
pub proof fn law_touching_outputs_do_not_overlap(s: ScreenView, i: int, j: int)
    requires
        laid_out(s),
        0 <= i < s.outputs.len(),
        0 <= j < s.outputs.len(),
    ensures
        s.outputs[i].lw > 0 && s.outputs[j].lx == s.outputs[i].lx + s.outputs[i].lw ==> s.outputs[j].x
            >= geometry::min_of(s.outputs[i].x + s.outputs[i].width, i16::MAX as int),
        s.outputs[i].lh > 0 && s.outputs[j].ly == s.outputs[i].ly + s.outputs[i].lh ==> s.outputs[j].y
            >= geometry::min_of(s.outputs[i].y + s.outputs[i].height, i16::MAX as int),
{
    lemma_axes(s);
    let (xs, ys) = (axis_x(s.outputs), axis_y(s.outputs));
    lemma_place(xs, i);
    lemma_place(ys, i);
    assert(s.relaid().outputs[i] == s.outputs[i]);
    assert(s.relaid().outputs[j] == s.outputs[j]);
    assert(xs[i].2 == s.outputs[i].width && ys[i].2 == s.outputs[i].height);
    if s.outputs[i].lw > 0 && s.outputs[j].lx == s.outputs[i].lx + s.outputs[i].lw {
        law_neighbours_do_not_overlap(xs, i, j);
    }
    if s.outputs[i].lh > 0 && s.outputs[j].ly == s.outputs[i].ly + s.outputs[i].lh {
        law_neighbours_do_not_overlap(ys, i, j);
    }
}

/// Where no output is scaled, each of them is on the screen where the compositor has it,
/// counted from the leftmost column and the topmost row of them all.
pub proof fn law_unscaled_outputs_keep_their_places(s: ScreenView, i: int, left: int, top: int)
    requires
        laid_out(s),
        0 <= i < s.outputs.len(),
        forall|k: int|
            0 <= k < s.outputs.len() ==> (#[trigger] s.outputs[k]).lw == s.outputs[k].width && s.outputs[k].lh
                == s.outputs[k].height,
        forall|k: int| 0 <= k < s.outputs.len() ==> left <= (#[trigger] s.outputs[k]).lx && top <= s.outputs[k].ly,
        exists|k: int| 0 <= k < s.outputs.len() && (#[trigger] s.outputs[k]).lx == left,
        exists|k: int| 0 <= k < s.outputs.len() && (#[trigger] s.outputs[k]).ly == top,
    ensures
        s.outputs[i].x == geometry::min_of(s.outputs[i].lx - left, i16::MAX as int),
        s.outputs[i].y == geometry::min_of(s.outputs[i].ly - top, i16::MAX as int),
{
    lemma_axes(s);
    let (xs, ys) = (axis_x(s.outputs), axis_y(s.outputs));
    assert(s.relaid().outputs[i] == s.outputs[i]);
    assert forall|k: int| 0 <= k < xs.len() implies (#[trigger] xs[k]).1 == xs[k].2 && left <= xs[k].0 by {
        assert(s.outputs[k].lw == s.outputs[k].width);
    }
    assert forall|k: int| 0 <= k < ys.len() implies (#[trigger] ys[k]).1 == ys[k].2 && top <= ys[k].0 by {
        assert(s.outputs[k].lh == s.outputs[k].height);
    }
    let a = choose|k: int| 0 <= k < s.outputs.len() && (#[trigger] s.outputs[k]).lx == left;
    let b = choose|k: int| 0 <= k < s.outputs.len() && (#[trigger] s.outputs[k]).ly == top;
    assert(xs[a].0 == left);
    assert(ys[b].0 == top);
    lemma_unscaled_items(xs, i, left);
    lemma_unscaled_items(ys, i, top);
}

/// Outputs that are aligned in the compositor's layout are aligned on the screen, and the
/// leftmost and topmost ones are at its edges.
pub proof fn law_aligned_outputs_stay_aligned(s: ScreenView, i: int, j: int)
    requires
        laid_out(s),
        0 <= i < s.outputs.len(),
        0 <= j < s.outputs.len(),
        forall|k: int| 0 <= k < s.outputs.len() ==> (#[trigger] s.outputs[k]).lw > 0 && s.outputs[k].lh > 0,
    ensures
        s.outputs[i].lx == s.outputs[j].lx ==> s.outputs[i].x == s.outputs[j].x,
        s.outputs[i].ly == s.outputs[j].ly ==> s.outputs[i].y == s.outputs[j].y,
        (forall|k: int| 0 <= k < s.outputs.len() ==> s.outputs[i].lx <= (#[trigger] s.outputs[k]).lx) ==> s.outputs[i].x == 0,
        (forall|k: int| 0 <= k < s.outputs.len() ==> s.outputs[i].ly <= (#[trigger] s.outputs[k]).ly) ==> s.outputs[i].y == 0,
{
    lemma_axes(s);
    let (xs, ys) = (axis_x(s.outputs), axis_y(s.outputs));
    assert(s.relaid().outputs[i] == s.outputs[i]);
    assert(s.relaid().outputs[j] == s.outputs[j]);
    assert forall|k: int| 0 <= k < xs.len() implies (#[trigger] xs[k]).1 > 0 by {
        assert(s.outputs[k].lw > 0);
    }
    assert forall|k: int| 0 <= k < ys.len() implies (#[trigger] ys[k]).1 > 0 by {
        assert(s.outputs[k].lh > 0);
    }
    if s.outputs[i].lx == s.outputs[j].lx {
        lemma_together(xs, i, j);
    }
    if s.outputs[i].ly == s.outputs[j].ly {
        lemma_together(ys, i, j);
    }
    if forall|k: int| 0 <= k < s.outputs.len() ==> s.outputs[i].lx <= (#[trigger] s.outputs[k]).lx {
        assert forall|k: int| 0 <= k < xs.len() implies xs[i].0 <= (#[trigger] xs[k]).0 by {
            assert(s.outputs[i].lx <= s.outputs[k].lx);
        }
        lemma_first_item(xs, i);
    }
    if forall|k: int| 0 <= k < s.outputs.len() ==> s.outputs[i].ly <= (#[trigger] s.outputs[k]).ly {
        assert forall|k: int| 0 <= k < ys.len() implies ys[i].0 <= (#[trigger] ys[k]).0 by {
            assert(s.outputs[i].ly <= s.outputs[k].ly);
        }
        lemma_first_item(ys, i);
    }
}

proof fn lemma_relaid_is_laid_out(s: ScreenView, t: ScreenView)
    requires
        t.outputs == s.relaid().outputs,
    ensures
        laid_out(t),
        t.outputs.len() == s.outputs.len(),
        forall|i: int|
            0 <= i < s.outputs.len() ==> #[trigger] t.outputs[i] == (OutputView {
                x: t.outputs[i].x,
                y: t.outputs[i].y,
                ..s.outputs[i]
            }),
{
    lemma_axes(s);
    assert(axis_x(t.outputs) == axis_x(s.outputs));
    assert(axis_y(t.outputs) == axis_y(s.outputs));
    assert(t.relaid().outputs =~= t.outputs);
}

/// Whenever a report of the compositor changes anything, all the outputs are laid out
/// anew, and the screen has the size of their bounds.
pub proof fn law_synced_outputs_are_laid_out(
    s: ScreenView,
    wl_name: u32,
    name: Seq<u8>,
    lx: i32,
    ly: i32,
    lw: i32,
    lh: i32,
    width: u16,
    height: u16,
    refresh_mhz: u32,
)
    requires
        s.sync_changes(wl_name, lx, ly, lw, lh, width, height),
    ensures
        ({
            let t = s.synced(wl_name, name, lx, ly, lw, lh, width, height, refresh_mhz);
            laid_out(t) && t.bounds() == (t.width, t.height)
        }),
{
    let t = s.synced(wl_name, name, lx, ly, lw, lh, width, height, refresh_mhz);
    let d = match list::first_index(s.outputs, mirrors(wl_name)) {
        Some(i) => s.driven(i, lx, ly, lw, lh, width, height, refresh_mhz),
        None => s.joined(wl_name, name, lx, ly, lw, lh, width, height, refresh_mhz),
    };
    lemma_relaid_is_laid_out(d, t);
}

/// The outputs that are left when one goes are laid out anew, and the screen has the size
/// of their bounds.
pub proof fn law_remaining_outputs_are_laid_out(s: ScreenView, wl_name: u32)
    ensures
        laid_out(s.without_output(wl_name)),
        s.without_output(wl_name).bounds() == (s.without_output(wl_name).width, s.without_output(wl_name).height),
        s.without_output(wl_name).outputs.len() == list::only(s.outputs, not_mirroring(wl_name)).len(),
        forall|i: int|
            0 <= i < s.without_output(wl_name).outputs.len() ==> (#[trigger] s.without_output(wl_name).outputs[i]).wl_name
                != wl_name,
{
    let o = ScreenView { outputs: list::only(s.outputs, not_mirroring(wl_name)), ..s }.pruned();
    lemma_relaid_is_laid_out(o, s.without_output(wl_name));
    list::lemma_only_elements(s.outputs, not_mirroring(wl_name));
    assert forall|i: int| 0 <= i < s.without_output(wl_name).outputs.len() implies (#[trigger] s.without_output(
        wl_name,
    ).outputs[i]).wl_name != wl_name by {
        assert(not_mirroring(wl_name)(o.outputs[i]));
    }
}

/// A rollback lays the outputs out anew.
pub proof fn law_restored_outputs_are_laid_out(s: ScreenView)
    ensures
        laid_out(s.restored()),
{
    let p = s.put_back(s.outputs.len() as int).0;
    lemma_relaid_is_laid_out(p, s.restored());
}

/// What the compositor reports of an output is what the screen says of it: its logical
/// rectangle, its size in pixels, and a mode of that size, which it lists.
pub proof fn law_synced_output_is_as_reported(
    s: ScreenView,
    wl_name: u32,
    name: Seq<u8>,
    lx: i32,
    ly: i32,
    lw: i32,
    lh: i32,
    width: u16,
    height: u16,
    refresh_mhz: u32,
)
    requires
        wl_name != 0,
        ids_fresh(s),
        0 <= s.next_id,
        s.next_id + 3 <= u32::MAX,
    ensures
        ({
            let t = s.synced(wl_name, name, lx, ly, lw, lh, width, height, refresh_mhz);
            exists|i: int|
                {
                    &&& 0 <= i < t.outputs.len()
                    &&& (#[trigger] t.outputs[i]).wl_name == wl_name
                    &&& t.outputs[i].lx == lx && t.outputs[i].ly == ly
                    &&& t.outputs[i].lw == lw && t.outputs[i].lh == lh
                    &&& t.outputs[i].width == width && t.outputs[i].height == height
                    &&& size_of_mode(t.modes, t.outputs[i].mode) == Some((width, height))
                }
        }),
{
    let t = s.synced(wl_name, name, lx, ly, lw, lh, width, height, refresh_mhz);
    law_second_sync_is_a_no_op(s, wl_name, name, lx, ly, lw, lh, width, height, refresh_mhz);
    list::lemma_first_index(t.outputs, mirrors(wl_name));
    let i = list::first_index(t.outputs, mirrors(wl_name))->0;
    assert(mirrors(wl_name)(t.outputs[i]));
}

/// A report on an output that the screen has leaves the others as they are, but for their
/// places.
pub proof fn law_sync_leaves_other_outputs(
    s: ScreenView,
    wl_name: u32,
    name: Seq<u8>,
    lx: i32,
    ly: i32,
    lw: i32,
    lh: i32,
    width: u16,
    height: u16,
    refresh_mhz: u32,
    i: int,
)
    requires
        exists|k: int| 0 <= k < s.outputs.len() && (#[trigger] s.outputs[k]).wl_name == wl_name,
        0 <= i < s.outputs.len(),
        s.outputs[i].wl_name != wl_name,
    ensures
        ({
            let t = s.synced(wl_name, name, lx, ly, lw, lh, width, height, refresh_mhz);
            &&& t.outputs.len() == s.outputs.len()
            &&& t.outputs[i] == (OutputView { x: t.outputs[i].x, y: t.outputs[i].y, ..s.outputs[i] })
        }),
{
    list::lemma_first_index(s.outputs, mirrors(wl_name));
    let k = choose|k: int| 0 <= k < s.outputs.len() && (#[trigger] s.outputs[k]).wl_name == wl_name;
    assert(mirrors(wl_name)(s.outputs[k]));
    let f = list::first_index(s.outputs, mirrors(wl_name))->0;
    assert(mirrors(wl_name)(s.outputs[f]));
    let t = s.synced(wl_name, name, lx, ly, lw, lh, width, height, refresh_mhz);
    if !s.unchanged(f, lx, ly, lw, lh, width, height) {
        lemma_relaid_is_laid_out(s.driven(f, lx, ly, lw, lh, width, height, refresh_mhz), t);
    }
}

proof fn lemma_extents(outputs: Seq<OutputView>)
    ensures
        0 <= ScreenView::extent_x(outputs) <= u16::MAX,
        0 <= ScreenView::extent_y(outputs) <= u16::MAX,
        forall|i: int|
            0 <= i < outputs.len() && (#[trigger] outputs[i]).connected && outputs[i].mode != 0 ==> {
                &&& geometry::min_of(outputs[i].x + outputs[i].width, u16::MAX as int) <= ScreenView::extent_x(outputs)
                &&& geometry::min_of(outputs[i].y + outputs[i].height, u16::MAX as int) <= ScreenView::extent_y(outputs)
            },
        ScreenView::extent_x(outputs) > 0 && (forall|i: int|
            0 <= i < outputs.len() ==> (#[trigger] outputs[i]).x >= 0) ==> exists|i: int|
            0 <= i < outputs.len() && (#[trigger] outputs[i]).connected && outputs[i].mode != 0 && geometry::min_of(
                outputs[i].x + outputs[i].width,
                u16::MAX as int,
            ) == ScreenView::extent_x(outputs),
        ScreenView::extent_y(outputs) > 0 && (forall|i: int|
            0 <= i < outputs.len() ==> (#[trigger] outputs[i]).y >= 0) ==> exists|i: int|
            0 <= i < outputs.len() && (#[trigger] outputs[i]).connected && outputs[i].mode != 0 && geometry::min_of(
                outputs[i].y + outputs[i].height,
                u16::MAX as int,
            ) == ScreenView::extent_y(outputs),
    decreases outputs.len(),
{
    if outputs.len() > 0 {
        let r = outputs.drop_last();
        lemma_extents(r);
        let n = r.len() as int;
        assert forall|i: int| 0 <= i < outputs.len() && (#[trigger] outputs[i]).connected && outputs[i].mode != 0 implies {
            &&& geometry::min_of(outputs[i].x + outputs[i].width, u16::MAX as int) <= ScreenView::extent_x(outputs)
            &&& geometry::min_of(outputs[i].y + outputs[i].height, u16::MAX as int) <= ScreenView::extent_y(outputs)
        } by {
            if i < n {
                assert(r[i] == outputs[i]);
            }
        }
        if ScreenView::extent_x(outputs) > 0 && (forall|i: int|
            0 <= i < outputs.len() ==> (#[trigger] outputs[i]).x >= 0) {
            if ScreenView::extent_x(outputs) == ScreenView::extent_x(r) {
                assert forall|i: int| 0 <= i < r.len() implies (#[trigger] r[i]).x >= 0 by {
                    assert(outputs[i].x >= 0);
                }
                let i = choose|i: int|
                    0 <= i < r.len() && (#[trigger] r[i]).connected && r[i].mode != 0 && geometry::min_of(
                        r[i].x + r[i].width,
                        u16::MAX as int,
                    ) == ScreenView::extent_x(r);
                assert(outputs[i] == r[i]);
            } else {
                assert(outputs[n].x >= 0);
            }
        }
        if ScreenView::extent_y(outputs) > 0 && (forall|i: int|
            0 <= i < outputs.len() ==> (#[trigger] outputs[i]).y >= 0) {
            if ScreenView::extent_y(outputs) == ScreenView::extent_y(r) {
                assert forall|i: int| 0 <= i < r.len() implies (#[trigger] r[i]).y >= 0 by {
                    assert(outputs[i].y >= 0);
                }
                let i = choose|i: int|
                    0 <= i < r.len() && (#[trigger] r[i]).connected && r[i].mode != 0 && geometry::min_of(
                        r[i].y + r[i].height,
                        u16::MAX as int,
                    ) == ScreenView::extent_y(r);
                assert(outputs[i] == r[i]);
            } else {
                assert(outputs[n].y >= 0);
            }
        }
    }
}

/// The screen holds every output that is on, as far as a screen can reach.
pub proof fn law_screen_holds_its_outputs(s: ScreenView, i: int)
    requires
        0 <= i < s.outputs.len(),
        s.outputs[i].connected,
        s.outputs[i].mode != 0,
    ensures
        s.outputs[i].x + s.outputs[i].width <= s.rebounded().width || s.rebounded().width == MAX_SCREEN,
        s.outputs[i].y + s.outputs[i].height <= s.rebounded().height || s.rebounded().height == MAX_SCREEN,
        s.rebounded().outputs == s.outputs,
{
    lemma_extents(s.outputs);
    assert(geometry::min_of(s.outputs[i].x + s.outputs[i].width, u16::MAX as int) <= ScreenView::extent_x(s.outputs));
}

/// The screen is no larger than its outputs need: where it is wider or higher than a
/// single pixel, an output that is on reaches its right or bottom edge, or past it.
pub proof fn law_screen_is_no_larger_than_its_outputs(s: ScreenView)
    requires
        forall|i: int| 0 <= i < s.outputs.len() ==> (#[trigger] s.outputs[i]).x >= 0 && s.outputs[i].y >= 0,
    ensures
        s.rebounded().width > 1 ==> exists|i: int|
            0 <= i < s.outputs.len() && (#[trigger] s.outputs[i]).connected && s.outputs[i].mode != 0 && s.outputs[i].x
                + s.outputs[i].width >= s.rebounded().width,
        s.rebounded().height > 1 ==> exists|i: int|
            0 <= i < s.outputs.len() && (#[trigger] s.outputs[i]).connected && s.outputs[i].mode != 0 && s.outputs[i].y
                + s.outputs[i].height >= s.rebounded().height,
{
    lemma_extents(s.outputs);
}

/// A size that a client asks for is what it gets, if the screen can have it.
pub proof fn law_accepted_sizes_are_kept(s: ScreenView, width: u16, height: u16)
    requires
        1 <= width <= 16384,
        1 <= height <= 16384,
    ensures
        s.of_size(width, height).width == width,
        s.of_size(width, height).height == height,
        s.of_size(width, height).outputs == s.outputs,
        s.of_size(width, height).modes == s.modes,
{
}

/// A CRTC that is reconfigured is where it was put, in the mode that it was put in and
/// of that mode's size, or disabled at the size that it had; the others stay.
pub proof fn law_crtc_is_as_configured(s: ScreenView, i: int, x: i16, y: i16, mode: u32, m: int, j: int)
    requires
        0 <= i < s.outputs.len(),
        0 <= j < s.outputs.len(),
        i != j,
        mode != 0 ==> 0 <= m < s.modes.len() && s.modes[m].info.id == mode && forall|k: int|
            0 <= k < m ==> (#[trigger] s.modes[k]).info.id != mode,
    ensures
        ({
            let o = s.with_crtc(i, x, y, mode).outputs[i];
            &&& o.x == x && o.y == y && o.mode == mode
            &&& mode != 0 ==> o.width == s.modes[m].info.width && o.height == s.modes[m].info.height
            &&& mode == 0 ==> o.width == s.outputs[i].width && o.height == s.outputs[i].height
            &&& o.crtc_id == s.outputs[i].crtc_id && o.output_id == s.outputs[i].output_id
        }),
        s.with_crtc(i, x, y, mode).outputs[j] == s.outputs[j],
{
    if mode != 0 {
        assert forall|k: int| 0 <= k < m implies !mode_is(mode)(#[trigger] s.modes[k]) by {
            assert(s.modes[k].info.id != mode);
        }
        list::lemma_first_index_is(s.modes, mode_is(mode), m);
    }
}

/// A native mode runs at the refresh rate it was reported with: its dot clock is its pixels
/// times the rate, rounded down, at 60 Hz where none was reported.
pub proof fn law_dot_clock_gives_the_refresh_rate(id: int, width: u16, height: u16, refresh_mhz: u32)
    requires
        width * height * refresh_mhz < 0x1_0000_0000 * 1000,
        width * height * 60 < 0x1_0000_0000,
    ensures
        ({
            let m = native_mode(id, width, height, refresh_mhz).info;
            &&& m.width == width && m.height == height && m.htotal == width && m.vtotal == height
            &&& refresh_mhz > 0 ==> m.dot_clock * 1000 <= width * height * refresh_mhz < (m.dot_clock + 1) * 1000
            &&& refresh_mhz == 0 ==> m.dot_clock == width * height * 60
        }),
{
    lemma_dot_clock(width, height, refresh_mhz);
    let n = width * height * refresh_mhz;
    assert(n / 1000 * 1000 <= n < (n / 1000 + 1) * 1000);
    assert(0 <= n / 1000 < 0x1_0000_0000);
    assert(n / 1000 % 0x1_0000_0000 == n / 1000);
    assert(0 <= width * height * 60);
}

/// A native mode is called by its size, the width first.
pub proof fn law_native_modes_are_called_by_their_size(width: u16, height: u16)
    ensures
        geometry::geometry_of(size_name(width, height).map_values(|b: u8| b as char)) == Ok::<
            (int, int),
            geometry::GeometryError,
        >((width as int, height as int)),
{
    let w = list::decimal(width as nat).map_values(|b: u8| b as char);
    let h = list::decimal(height as nat).map_values(|b: u8| b as char);
    let s = size_name(width, height).map_values(|b: u8| b as char);
    assert(s =~= w + seq!['x'] + h);
    list::lemma_decimal_digits(width as nat);
    list::lemma_decimal_digits(height as nat);
    list::law_decimals_read_back(width as nat, 65535);
    list::law_decimals_read_back(height as nat, 65535);
    geometry::law_width_comes_before_height(w, 'x', h);
    assert(!geometry::is_white(w[0]) && !geometry::is_white(w.last()));
    assert(!geometry::is_white(h[0]) && !geometry::is_white(h.last()));
}

/// Millimetres are pixels at 96 to the inch of 25.4 mm, rounded down.
pub proof fn law_outputs_are_measured_at_96_to_the_inch(pixels: u16)
    ensures
        mm_of(pixels) * 960 <= pixels * 254 < (mm_of(pixels) + 1) * 960,
{
}

/// An output that shows up is connected and on, under ids that nothing had, with the name
/// it was reported with, and takes the place of the screen that stood in for it.
pub proof fn law_new_output_is_connected(
    s: ScreenView,
    wl_name: u32,
    name: Seq<u8>,
    lx: i32,
    ly: i32,
    lw: i32,
    lh: i32,
    width: u16,
    height: u16,
    refresh_mhz: u32,
)
    requires
        wl_name != 0,
        0 < s.next_id,
        s.next_id + 3 <= u32::MAX,
        name.len() > 0,
    ensures
        ({
            let t = s.joined(wl_name, name, lx, ly, lw, lh, width, height, refresh_mhz);
            let o = t.outputs.last();
            &&& t.outputs.len() > 0
            &&& o.wl_name == wl_name && o.name == name && o.connected && o.mode != 0
            &&& o.lx == lx && o.ly == ly && o.lw == lw && o.lh == lh && o.width == width && o.height == height
            &&& o.mode >= s.next_id && o.output_id >= s.next_id && o.crtc_id >= s.next_id
            &&& o.mode != o.output_id && o.mode != o.crtc_id && o.output_id != o.crtc_id
            &&& t.next_id > o.mode && t.next_id > o.output_id && t.next_id > o.crtc_id
            &&& o.mm_width == mm_of(width) && o.mm_height == mm_of(height)
            &&& forall|i: int| 0 <= i < t.outputs.len() ==> (#[trigger] t.outputs[i]).wl_name != 0
        }),
{
    let t = s.joined(wl_name, name, lx, ly, lw, lh, width, height, refresh_mhz);
    let o = OutputView {
        output_id: (s.next_id + 1) as u32,
        crtc_id: (s.next_id + 2) as u32,
        name,
        x: 0,
        y: 0,
        width,
        height,
        lx,
        ly,
        lw,
        lh,
        mode: s.next_id as u32,
        mode_ids: seq![s.next_id as u32],
        mm_width: mm_of(width),
        mm_height: mm_of(height),
        wl_name,
        connected: true,
    };
    let pushed = s.outputs.push(o);
    assert(pushed.drop_last() =~= s.outputs);
    assert(t.outputs == list::only(s.outputs, not_mirroring(0)).push(o));
    list::lemma_only_elements(pushed, not_mirroring(0));
    assert forall|i: int| 0 <= i < t.outputs.len() implies (#[trigger] t.outputs[i]).wl_name != 0 by {
        assert(not_mirroring(0)(t.outputs[i]));
    }
}

/// A mode that is added to an output is in its list, once, and one that is deleted from it
/// is not; a mode that is destroyed is gone from every list.
pub proof fn law_mode_lists_are_as_asked(s: ScreenView, i: int, mode: u32)
    requires
        0 <= i < s.outputs.len(),
        forall|k: int| 0 <= k < i ==> (#[trigger] s.outputs[k]).output_id != s.outputs[i].output_id,
    ensures
        s.listing(s.outputs[i].output_id, mode).outputs[i].mode_ids.contains(mode),
        !s.delisting(s.outputs[i].output_id, mode).outputs[i].mode_ids.contains(mode),
        !s.without_mode(mode).outputs[i].mode_ids.contains(mode),
        size_of_mode(s.without_mode(mode).modes, mode) is None,
{
    let id = s.outputs[i].output_id;
    assert forall|k: int| 0 <= k < i implies !output_is(id)(#[trigger] s.outputs[k]) by {
        assert(s.outputs[k].output_id != id);
    }
    list::lemma_first_index_is(s.outputs, output_is(id), i);
    let ids = s.outputs[i].mode_ids;
    assert(with_mode(ids, mode).contains(mode)) by {
        if !ids.contains(mode) {
            assert(ids.push(mode)[ids.len() as int] == mode);
        }
    }
    list::lemma_only_holds(ids, list::is_not_in(seq![mode]));
    assert(seq![mode].contains(mode)) by {
        assert(seq![mode][0] == mode);
    }
    let left = list::only(s.modes, mode_is_not(mode));
    list::lemma_only_elements(s.modes, mode_is_not(mode));
    assert forall|k: int| 0 <= k < left.len() implies !mode_is(mode)(#[trigger] left[k]) by {
        assert(mode_is_not(mode)(left[k]));
    }
    list::lemma_first_index_none(left, mode_is(mode));
}

/// A rollback says that something changed exactly where something did.
pub proof fn law_rollback_says_what_it_did(s: ScreenView)
    ensures
        s.restore_changes() <==> s.restored() != s,
{
    let n = s.outputs.len() as int;
    let (p, changed) = s.put_back(n);
    let t = p.relaid();
    lemma_put_back_keeps(s, n);
    lemma_bump_differs(t);
    lemma_bump_differs(s);
    lemma_put_back_unchanged(s, n);
    if !moved(p.outputs, t.outputs) {
        assert forall|i: int| 0 <= i < p.outputs.len() implies #[trigger] t.outputs[i] == p.outputs[i] by {
            assert(p.outputs[i].x == t.outputs[i].x && p.outputs[i].y == t.outputs[i].y);
        }
        assert(t.outputs =~= p.outputs);
        assert(t =~= p);
    }
}

proof fn lemma_put_back_unchanged(s: ScreenView, n: int)
    ensures
        !s.put_back(n).1 ==> s.put_back(n).0 == s,
        s.put_back(n).0.timestamp == s.timestamp,
        s.put_back(n).0.width == s.width,
        s.put_back(n).0.height == s.height,
    decreases n,
{
    if n > 0 {
        lemma_put_back_unchanged(s, n - 1);
    }
}

/// A CRTC whose output is driven at the size of a client's mode goes to that mode, and
/// stays where and as large as it is; one that is not stays in the mode it has.
pub proof fn law_adopted_mode_is_the_clients(s: ScreenView, i: int, m: int)
    requires
        0 <= i < s.outputs.len(),
        forall|k: int| 0 <= k < i ==> (#[trigger] s.outputs[k]).crtc_id != s.outputs[i].crtc_id,
        0 <= m < s.modes.len(),
        forall|k: int| 0 <= k < m ==> (#[trigger] s.modes[k]).info.id != s.modes[m].info.id,
    ensures
        ({
            let o = s.outputs[i];
            let mode = s.modes[m].info;
            let t = s.adopted(o.crtc_id, mode.id);
            let fits = o.width == mode.width && o.height == mode.height;
            &&& t.outputs.len() == s.outputs.len()
            &&& fits ==> t.outputs[i].mode == mode.id
            &&& !fits ==> t == s
            &&& t.outputs[i].x == o.x && t.outputs[i].y == o.y && t.outputs[i].width == o.width && t.outputs[i].height
                == o.height
            &&& t.width == s.width && t.height == s.height
        }),
{
    let crtc = s.outputs[i].crtc_id;
    let id = s.modes[m].info.id;
    assert forall|k: int| 0 <= k < i implies !crtc_is(crtc)(#[trigger] s.outputs[k]) by {
        assert(s.outputs[k].crtc_id != crtc);
    }
    list::lemma_first_index_is(s.outputs, crtc_is(crtc), i);
    assert forall|k: int| 0 <= k < m implies !mode_is(id)(#[trigger] s.modes[k]) by {
        assert(s.modes[k].info.id != id);
    }
    list::lemma_first_index_is(s.modes, mode_is(id), m);
}

} // verus!
