//! Turns XTest `FakeInput` events into virtual-input requests.
//!
//! Keys: X keycodes are evdev + 8, so `keycode - 8` is sent, and the compositor
//! keymap goes to the virtual keyboard verbatim so they resolve to the keysyms the
//! client meant. Pointer: absolute motion maps through the output [`Layout`], X
//! buttons 4-7 become wheel notches, and anything else is a button.

use crate::util::layout;
use crate::util::layout::{Layout, OutputRect};
use crate::util::list;
use vstd::prelude::*;

verus! {

// XTest/core input event types
pub const KEY_PRESS: u8 = 2;

pub const KEY_RELEASE: u8 = 3;

pub const BUTTON_PRESS: u8 = 4;

pub const BUTTON_RELEASE: u8 = 5;

pub const MOTION_NOTIFY: u8 = 6;

// evdev button codes
pub const BTN_LEFT: u32 = 0x110;

pub const BTN_RIGHT: u32 = 0x111;

pub const BTN_MIDDLE: u32 = 0x112;

pub const BTN_SIDE: u32 = 0x113;

pub const BTN_EXTRA: u32 = 0x114;

/// What the virtual devices are asked to do.
#[derive(Clone, Copy, PartialEq, Eq, Structural, Debug)]
pub enum InputAction {
    /// A key by its evdev code.
    Key { key: u32, pressed: bool },
    /// The modifier masks that go with the keys that are down. A virtual keyboard,
    /// unlike a real one, does not derive modifier state from key events; without
    /// this a chord like Ctrl+C arrives as a bare `c`.
    Modifiers { depressed: u32, latched: u32, locked: u32, group: u32 },
    MotionAbsolute { x: u32, y: u32, extent_x: u32, extent_y: u32 },
    Motion { dx: i32, dy: i32 },
    Button { code: u32, pressed: bool },
    /// Notches of the wheel: down and right are positive.
    Wheel { vertical: bool, notches: i32 },
    /// What came before belongs together.
    Frame,
}

/// What input needs to know: the screen, its layout, and the keys that are down.
pub struct Input {
    width: u16,
    height: u16,
    /// The virtual devices are there.
    ready: bool,
    /// The virtual keyboard rejects keys until it has a keymap.
    keymap_set: bool,
    layout: Option<Layout>,
}

#[verifier::ext_equal]
pub struct InputView {
    pub width: u16,
    pub height: u16,
    pub ready: bool,
    pub keymap_set: bool,
    /// The outputs that absolute motion maps through. None until the first output is
    /// known, which falls back to a proportional mapping over the screen.
    pub outputs: Option<Seq<OutputRect>>,
}

impl View for Input {
    type V = InputView;

    closed spec fn view(&self) -> InputView {
        InputView {
            width: self.width,
            height: self.height,
            ready: self.ready,
            keymap_set: self.keymap_set,
            outputs: match self.layout {
                Some(l) => Some(l.rects()),
                None => None,
            },
        }
    }
}

/// Which evdev button an X button is.
pub open spec fn button_code(button: u8) -> Option<u32> {
    if button == 1 {
        Some(BTN_LEFT)
    } else if button == 2 {
        Some(BTN_MIDDLE)
    } else if button == 3 {
        Some(BTN_RIGHT)
    } else if button == 8 {
        Some(BTN_SIDE)
    } else if button == 9 {
        Some(BTN_EXTRA)
    } else {
        None
    }
}

/// Which way an X button turns the wheel: whether it is the vertical one, and the
/// notches.
pub open spec fn wheel_of(button: u8) -> Option<(bool, i32)> {
    if button == 4 {
        Some((true, -1i32))
    } else if button == 5 {
        Some((true, 1i32))
    } else if button == 6 {
        Some((false, -1i32))
    } else if button == 7 {
        Some((false, 1i32))
    } else {
        None
    }
}

/// What a button does. X scroll buttons are momentary: one notch on press.
pub open spec fn button_actions(button: u8, press: bool) -> Seq<InputAction> {
    match wheel_of(button) {
        Some((vertical, notches)) => if press {
            seq![(InputAction::Wheel { vertical, notches }), InputAction::Frame]
        } else {
            Seq::empty()
        },
        None => match button_code(button) {
            Some(code) => seq![(InputAction::Button { code, pressed: press }), InputAction::Frame],
            None => Seq::empty(),
        },
    }
}

/// What a key does: the key itself, then the masks if there are any to send.
pub open spec fn key_actions(keycode: u8, press: bool, masks: Option<(u32, u32, u32, u32)>) -> Seq<InputAction> {
    let key = InputAction::Key { key: ((keycode - 8) % 0x1_0000_0000) as u32, pressed: press };
    match masks {
        Some((depressed, latched, locked, group)) => seq![
            key,
            (InputAction::Modifiers { depressed, latched, locked, group }),
        ],
        None => seq![key],
    }
}

/// Where an absolute motion goes: through the layout of the outputs, or clamped to
/// the screen while there is none.
pub open spec fn motion_of(v: InputView, x: i16, y: i16) -> InputAction {
    match v.outputs {
        Some(rects) => {
            let o = rects[layout::output_for(rects, x as int, y as int)];
            let (ox, oy, ow, oh) = Layout::box_of(rects);
            InputAction::MotionAbsolute {
                x: layout::clamped(
                    o.lx + layout::scaled(x as int, o.px as int, o.pw as int, o.lw as int) - ox,
                    0,
                    ow,
                ) as u32,
                y: layout::clamped(
                    o.ly + layout::scaled(y as int, o.py as int, o.ph as int, o.lh as int) - oy,
                    0,
                    oh,
                ) as u32,
                extent_x: ow as u32,
                extent_y: oh as u32,
            }
        },
        None => InputAction::MotionAbsolute {
            x: layout::clamped(x as int, 0, v.width as int) as u32,
            y: layout::clamped(y as int, 0, v.height as int) as u32,
            extent_x: v.width as u32,
            extent_y: v.height as u32,
        },
    }
}

impl InputView {
    /// What a `FakeInput` event does, given the masks that the key leads to. Motion
    /// with detail 0 is absolute, else relative; nothing happens before there are
    /// devices, and keys need a keymap.
    pub open spec fn actions(self, type_: u8, detail: u8, x: i16, y: i16, masks: Option<(u32, u32, u32, u32)>) -> Seq<
        InputAction,
    > {
        if !self.ready {
            Seq::empty()
        } else if type_ == KEY_PRESS || type_ == KEY_RELEASE {
            if self.keymap_set {
                key_actions(detail, type_ == KEY_PRESS, masks)
            } else {
                Seq::empty()
            }
        } else if type_ == BUTTON_PRESS || type_ == BUTTON_RELEASE {
            button_actions(detail, type_ == BUTTON_PRESS)
        } else if type_ == MOTION_NOTIFY {
            if detail == 0 {
                seq![motion_of(self, x, y), InputAction::Frame]
            } else {
                seq![(InputAction::Motion { dx: x as i32, dy: y as i32 }), InputAction::Frame]
            }
        } else {
            Seq::empty()
        }
    }

    /// The event is a key's, and goes out: what it does waits for the masks.
    pub open spec fn strikes(self, type_: u8) -> bool {
        self.ready && self.keymap_set && (type_ == KEY_PRESS || type_ == KEY_RELEASE)
    }

    /// The event can be carried out: an absolute motion has an output to go to.
    pub open spec fn accepts(self, type_: u8, detail: u8, x: i16, y: i16) -> bool {
        self.ready && type_ == MOTION_NOTIFY && detail == 0 ==> self.resolvable(x, y)
    }

    /// The outputs are such that a point outside all of them has a nearest one.
    pub open spec fn resolvable(self, x: i16, y: i16) -> bool {
        self.outputs matches Some(rects) ==> list::first_index(rects, layout::having(x as int, y as int)) is Some
            || forall|i: int| 0 <= i < rects.len() ==> (#[trigger] rects[i]).pw > 0 && rects[i].ph > 0
    }
}

impl Input {
    pub closed spec fn wf(self) -> bool {
        self.layout matches Some(l) ==> l.wf()
    }

    pub fn new(width: u16, height: u16) -> (i: Self)
        ensures
            i.wf(),
            i@ == (InputView { width, height, ready: false, keymap_set: false, outputs: None }),
    {
        Input { width, height, ready: false, keymap_set: false, layout: None }
    }

    /// The virtual devices are there; they have no keymap yet.
    pub fn set_devices(&mut self)
        requires
            old(self).wf(),
        ensures
            final(self).wf(),
            final(self)@ == if old(self)@.ready {
                old(self)@
            } else {
                InputView { ready: true, keymap_set: false, ..old(self)@ }
            },
    {
        if !self.ready {
            self.ready = true;
            self.keymap_set = false;
        }
    }

    /// The compositor keymap goes to the virtual keyboard. Key events are dropped
    /// until this lands, since the protocol demands a keymap first. Returns whether
    /// there is a keyboard to send it to.
    pub fn set_keymap(&mut self) -> (forward: bool)
        requires
            old(self).wf(),
        ensures
            final(self).wf(),
            forward == old(self)@.ready,
            final(self)@ == (InputView { keymap_set: old(self)@.keymap_set || old(self)@.ready, ..old(self)@ }),
    {
        if self.ready {
            self.keymap_set = true;
        }
        self.ready
    }

    /// Updates the screen geometry absolute motion scales against, on resize.
    pub fn set_geometry(&mut self, width: u16, height: u16)
        requires
            old(self).wf(),
        ensures
            final(self).wf(),
            final(self)@ == (InputView { width, height, ..old(self)@ }),
    {
        self.width = width;
        self.height = height;
    }

    /// Installs the output layout absolute motion remaps through, on any output
    /// change.
    pub fn set_layout(&mut self, outputs: Vec<OutputRect>)
        requires
            old(self).wf(),
            outputs@.len() > 0 ==> Layout::box_of(outputs@).2 <= i32::MAX && Layout::box_of(outputs@).3 <= i32::MAX,
        ensures
            final(self).wf(),
            final(self)@ == (InputView {
                outputs: if outputs@.len() > 0 {
                    Some(outputs@)
                } else {
                    None
                },
                ..old(self)@
            }),
    {
        self.layout = Layout::new(outputs);
    }

    /// Whether an event is a key's that goes out. The keyboard that follows the keys is to
    /// be asked for the masks that go with it; they are sent after every key, since an
    /// unchanged mask is a no-op that the compositor diffs away.
    pub fn strikes(&self, type_: u8) -> (b: bool)
        requires
            self.wf(),
        ensures
            b == self@.strikes(type_),
    {
        self.ready && self.keymap_set && (type_ == KEY_PRESS || type_ == KEY_RELEASE)
    }

    /// Whether a `FakeInput` event can be carried out.
    pub fn accepts(&self, type_: u8, detail: u8, x: i16, y: i16) -> (b: bool)
        requires
            self.wf(),
        ensures
            b == self@.accepts(type_, detail, x, y),
    {
        if !self.ready || type_ != MOTION_NOTIFY || detail != 0 {
            return true;
        }
        match &self.layout {
            Some(l) => l.resolves(x, y),
            None => true,
        }
    }

    /// Handles one XTest `FakeInput` event, given the masks that a key leads to: `None` if
    /// it cannot affect modifiers, or there is no keyboard to follow.
    ///
    /// A `MOTION_NOTIFY` with `detail == 0` is absolute, otherwise relative.
    pub fn fake_input(&self, type_: u8, detail: u8, x: i16, y: i16, masks: Option<(u32, u32, u32, u32)>) -> (out: Vec<
        InputAction,
    >)
        requires
            self.wf(),
            self@.accepts(type_, detail, x, y),
        ensures
            out@ == self@.actions(type_, detail, x, y, masks),
    {
        let mut out: Vec<InputAction> = Vec::new();
        if !self.ready {
            return out;
        }
        if type_ == KEY_PRESS || type_ == KEY_RELEASE {
            if self.keymap_set {
                let key: u32 = (detail as u32).wrapping_sub(8);
                out.push(InputAction::Key { key, pressed: type_ == KEY_PRESS });
                if let Some((depressed, latched, locked, group)) = masks {
                    out.push(InputAction::Modifiers { depressed, latched, locked, group });
                }
                assert(out@ =~= key_actions(detail, type_ == KEY_PRESS, masks));
            }
        } else if type_ == BUTTON_PRESS || type_ == BUTTON_RELEASE {
            return button(detail, type_ == BUTTON_PRESS);
        } else if type_ == MOTION_NOTIFY {
            if detail == 0 {
                let m = self.motion_abs(x, y);
                out.push(m);
            } else {
                out.push(InputAction::Motion { dx: x as i32, dy: y as i32 });
            }
            out.push(InputAction::Frame);
            assert(out@ =~= self@.actions(type_, detail, x, y, masks));
        }
        out
    }

    /// Maps the physical X-screen point back into logical space so motion lands
    /// correctly under mixed or fractional output scaling: the virtual pointer
    /// resolves value/extent over the logical layout, so physical coords with a
    /// physical extent would misplace the cursor.
    fn motion_abs(&self, x: i16, y: i16) -> (m: InputAction)
        requires
            self.wf(),
            self@.resolvable(x, y),
        ensures
            m == motion_of(self@, x, y),
    {
        if let Some(l) = &self.layout {
            proof {
                l.lemma_box();
            }
            if let Some((lx, ly, lw, lh)) = l.to_logical(x, y) {
                return InputAction::MotionAbsolute { x: lx, y: ly, extent_x: lw, extent_y: lh };
            }
        }
        // no layout yet, so fall back to a proportional mapping over the screen
        let cx: u32 = clamp_to(x, self.width);
        let cy: u32 = clamp_to(y, self.height);
        InputAction::MotionAbsolute { x: cx, y: cy, extent_x: self.width as u32, extent_y: self.height as u32 }
    }
}

fn clamp_to(v: i16, hi: u16) -> (r: u32)
    ensures
        r == layout::clamped(v as int, 0, hi as int),
{
    if v < 0 {
        0
    } else if v as u32 > hi as u32 {
        hi as u32
    } else {
        v as u32
    }
}

/// What an X button does; see [`button_actions`].
pub fn button(n: u8, press: bool) -> (out: Vec<InputAction>)
    ensures
        out@ == button_actions(n, press),
{
    let mut out: Vec<InputAction> = Vec::new();
    let scroll: Option<(bool, i32)> = match n {
        4 => Some((true, -1)),
        5 => Some((true, 1)),
        6 => Some((false, -1)),
        7 => Some((false, 1)),
        _ => None,
    };
    if let Some((vertical, notches)) = scroll {
        if press {
            out.push(InputAction::Wheel { vertical, notches });
            out.push(InputAction::Frame);
        }
        assert(out@ =~= button_actions(n, press));
        return out;
    }
    let code: Option<u32> = match n {
        1 => Some(BTN_LEFT),
        2 => Some(BTN_MIDDLE),
        3 => Some(BTN_RIGHT),
        8 => Some(BTN_SIDE),
        9 => Some(BTN_EXTRA),
        _ => None,
    };
    if let Some(code) = code {
        out.push(InputAction::Button { code, pressed: press });
        out.push(InputAction::Frame);
    }
    assert(out@ =~= button_actions(n, press));
    out
}

/// No key goes out before the keyboard has a keymap, and nothing at all before there
/// are devices.
pub proof fn law_keys_wait_for_the_keymap(v: InputView, detail: u8, x: i16, y: i16, masks: Option<(u32, u32, u32, u32)>)
    ensures
        !v.ready || !v.keymap_set ==> v.actions(KEY_PRESS, detail, x, y, masks).len() == 0 && v.actions(
            KEY_RELEASE,
            detail,
            x,
            y,
            masks,
        ).len() == 0,
{
}

/// A wheel button's release turns nothing: a click is one notch.
pub proof fn law_a_wheel_click_is_one_notch(button: u8)
    requires
        4 <= button <= 7,
    ensures
        button_actions(button, true).len() == 2,
        button_actions(button, true)[0] is Wheel,
        button_actions(button, false).len() == 0,
{
}

/// The buttons of X are those of evdev: left, middle and right are 1, 2 and 3, and the
/// two on the side 8 and 9. Each is pressed and let go as such.
pub proof fn law_buttons_are_those_of_evdev(v: InputView, button: u8, press: bool, x: i16, y: i16)
    requires
        v.ready,
    ensures
        ({
            let a = v.actions(if press { 4 } else { 5 }, button, x, y, None);
            &&& button == 1 ==> a == seq![(InputAction::Button { code: 0x110, pressed: press }), InputAction::Frame]
            &&& button == 2 ==> a == seq![(InputAction::Button { code: 0x112, pressed: press }), InputAction::Frame]
            &&& button == 3 ==> a == seq![(InputAction::Button { code: 0x111, pressed: press }), InputAction::Frame]
            &&& button == 8 ==> a == seq![(InputAction::Button { code: 0x113, pressed: press }), InputAction::Frame]
            &&& button == 9 ==> a == seq![(InputAction::Button { code: 0x114, pressed: press }), InputAction::Frame]
            &&& button == 0 || button > 9 ==> a.len() == 0
        }),
{
}

/// Button 4 turns the wheel up and 5 down, 6 turns it left and 7 right, one notch when it
/// is pressed.
pub proof fn law_wheel_buttons_turn_their_way(v: InputView, button: u8, x: i16, y: i16)
    requires
        v.ready,
    ensures
        ({
            let a = v.actions(4, button, x, y, None);
            &&& button == 4 ==> a == seq![(InputAction::Wheel { vertical: true, notches: -1i32 }), InputAction::Frame]
            &&& button == 5 ==> a == seq![(InputAction::Wheel { vertical: true, notches: 1 }), InputAction::Frame]
            &&& button == 6 ==> a == seq![(InputAction::Wheel { vertical: false, notches: -1i32 }), InputAction::Frame]
            &&& button == 7 ==> a == seq![(InputAction::Wheel { vertical: false, notches: 1 }), InputAction::Frame]
        }),
        4 <= button <= 7 ==> v.actions(5, button, x, y, None).len() == 0,
{
}

/// A key goes out by its evdev code, which is 8 below its keycode, pressed by a press and
/// let go by a release, and the masks that it leads to go out behind it.
pub proof fn law_keys_go_out_by_their_evdev_code(
    v: InputView,
    key: u8,
    press: bool,
    x: i16,
    y: i16,
    masks: (u32, u32, u32, u32),
)
    requires
        v.ready,
        v.keymap_set,
        key < 248,
    ensures
        ({
            let k = InputAction::Key { key: key as u32, pressed: press };
            let m = InputAction::Modifiers { depressed: masks.0, latched: masks.1, locked: masks.2, group: masks.3 };
            &&& v.actions(if press { 2 } else { 3 }, (key + 8) as u8, x, y, Some(masks)) == seq![k, m]
            &&& v.actions(if press { 2 } else { 3 }, (key + 8) as u8, x, y, None) == seq![k]
        }),
{
}

/// A relative motion is the motion; x is across and y is down.
pub proof fn law_relative_motion_is_as_asked(v: InputView, detail: u8, x: i16, y: i16)
    requires
        v.ready,
        detail != 0,
    ensures
        v.actions(6, detail, x, y, None) == seq![
            (InputAction::Motion { dx: x as i32, dy: y as i32 }),
            InputAction::Frame,
        ],
{
}

/// Where no output is scaled and one has the point, an absolute motion goes to where that
/// output has it in the compositor's layout, counted from the layout's top left corner.
pub proof fn law_absolute_motion_goes_to_the_same_pixel(v: InputView, rects: Seq<OutputRect>, x: i16, y: i16, i: int)
    requires
        v.ready,
        v.outputs == Some(rects),
        0 <= i < rects.len(),
        rects[i].has_point(x as int, y as int),
        forall|k: int| 0 <= k < i ==> !(#[trigger] rects[k]).has_point(x as int, y as int),
        rects[i].lw == rects[i].pw,
        rects[i].lh == rects[i].ph,
    ensures
        ({
            let a = v.actions(6, 0, x, y, None);
            &&& a.len() == 2 && a[1] is Frame
            &&& a[0] matches InputAction::MotionAbsolute { x: ax, y: ay, extent_x, extent_y } && exists|
                left: int,
                top: int,
            |
                {
                    &&& #[trigger] corner(rects, left, top)
                    &&& 0 <= rects[i].lx + (x - rects[i].px) - left <= u32::MAX ==> ax == rects[i].lx + (x - rects[i].px) - left
                    &&& 0 <= rects[i].ly + (y - rects[i].py) - top <= u32::MAX ==> ay == rects[i].ly + (y - rects[i].py) - top
                }
        }),
{
    let (ox, oy, ow, oh) = Layout::box_of(rects);
    let o = rects[i];
    assert forall|k: int| 0 <= k < i implies !layout::having(x as int, y as int)(#[trigger] rects[k]) by {
        assert(!rects[k].has_point(x as int, y as int));
    }
    list::lemma_first_index_is(rects, layout::having(x as int, y as int), i);
    layout::law_unscaled_points_shift(o, x as int, y as int);
    layout::law_box_holds_the_outputs(rects, i);
    assert forall|k: int| 0 <= k < rects.len() implies ox <= (#[trigger] rects[k]).lx && oy <= rects[k].ly by {
        layout::law_box_holds_the_outputs(rects, k);
    }
    assert(corner(rects, ox, oy));
}

/// The top left corner of the compositor's layout: the least column and the least row of
/// its outputs.
pub open spec fn corner(rects: Seq<OutputRect>, left: int, top: int) -> bool {
    &&& forall|k: int| 0 <= k < rects.len() ==> left <= (#[trigger] rects[k]).lx && top <= rects[k].ly
    &&& exists|k: int| 0 <= k < rects.len() && (#[trigger] rects[k]).lx == left
    &&& exists|k: int| 0 <= k < rects.len() && (#[trigger] rects[k]).ly == top
}

/// While no outputs are known an absolute motion is over the screen, and stays on it.
pub proof fn law_absolute_motion_is_over_the_screen(v: InputView, x: i16, y: i16)
    requires
        v.ready,
        v.outputs is None,
        0 <= x <= v.width,
        0 <= y <= v.height,
    ensures
        v.actions(6, 0, x, y, None) == seq![
            (InputAction::MotionAbsolute {
                x: x as u32,
                y: y as u32,
                extent_x: v.width as u32,
                extent_y: v.height as u32,
            }),
            InputAction::Frame,
        ],
{
}

} // verus!
