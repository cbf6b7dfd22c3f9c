//! Cursor image and position, written by the Wayland capture and read for XFixes
//! `GetCursorImage`/`GetCursorImageAndName`.

use crate::util::list;
use vstd::prelude::*;

verus! {

/// The cursor as it was last captured.
pub struct CursorState {
    inner: CursorSnapshot,
}

/// A copy of the cursor.
pub struct CursorSnapshot {
    /// Counts the images, 0 if nothing was captured yet.
    pub serial: u32,
    pub width: u16,
    pub height: u16,
    /// Hotspot within the image.
    pub xhot: u16,
    pub yhot: u16,
    /// Hotspot position in root coordinates.
    pub x: i16,
    pub y: i16,
    /// ARGB.
    pub image: Vec<u32>,
}

#[verifier::ext_equal]
pub struct CursorView {
    pub serial: u32,
    pub width: u16,
    pub height: u16,
    pub xhot: u16,
    pub yhot: u16,
    pub x: i16,
    pub y: i16,
    pub image: Seq<u32>,
}

impl View for CursorSnapshot {
    type V = CursorView;

    open spec fn view(&self) -> CursorView {
        CursorView {
            serial: self.serial,
            width: self.width,
            height: self.height,
            xhot: self.xhot,
            yhot: self.yhot,
            x: self.x,
            y: self.y,
            image: self.image@,
        }
    }
}

impl View for CursorState {
    type V = CursorView;

    closed spec fn view(&self) -> CursorView {
        self.inner@
    }
}

/// The next serial; it is never 0.
pub open spec fn next_serial(s: u32) -> u32 {
    if s == u32::MAX {
        1
    } else {
        (s + 1) as u32
    }
}

impl CursorView {
    /// No image, at the corner.
    pub open spec fn initial() -> CursorView {
        CursorView { serial: 0, width: 0, height: 0, xhot: 0, yhot: 0, x: 0, y: 0, image: Seq::empty() }
    }
}

impl Default for CursorState {
    fn default() -> (c: Self)
        ensures
            c@ == CursorView::initial(),
    {
        let inner = CursorSnapshot {
            serial: 0,
            width: 0,
            height: 0,
            xhot: 0,
            yhot: 0,
            x: 0,
            y: 0,
            image: Vec::new(),
        };
        assert(inner@.image =~= Seq::empty());
        CursorState { inner }
    }
}

impl CursorState {
    /// Replaces the image, returning the new serial.
    pub fn update_image(&mut self, w: u16, h: u16, xhot: u16, yhot: u16, image: Vec<u32>) -> (serial: u32)
        ensures
            serial == next_serial(old(self)@.serial),
            serial != 0,
            final(self)@ == (CursorView {
                serial,
                width: w,
                height: h,
                xhot,
                yhot,
                image: image@,
                ..old(self)@
            }),
    {
        self.inner.width = w;
        self.inner.height = h;
        self.inner.xhot = xhot;
        self.inner.yhot = yhot;
        self.inner.image = image;
        let next: u32 = self.inner.serial.wrapping_add(1);
        self.inner.serial = if next == 0 { 1 } else { next };
        self.inner.serial
    }

    pub fn update_position(&mut self, x: i16, y: i16)
        ensures
            final(self)@ == (CursorView { x, y, ..old(self)@ }),
    {
        self.inner.x = x;
        self.inner.y = y;
    }

    pub fn snapshot(&self) -> (s: CursorSnapshot)
        ensures
            s@ == self@,
    {
        CursorSnapshot {
            serial: self.inner.serial,
            width: self.inner.width,
            height: self.inner.height,
            xhot: self.inner.xhot,
            yhot: self.inner.yhot,
            x: self.inner.x,
            y: self.inner.y,
            image: list::copy_u32s(&self.inner.image),
        }
    }

    pub fn serial(&self) -> (s: u32)
        ensures
            s == self@.serial,
    {
        self.inner.serial
    }
}

/// Serials count on, and never come to 0, which stands for no image.
pub proof fn law_serials_count_on(s: u32)
    ensures
        next_serial(s) != 0,
        next_serial(s) != s,
        s < u32::MAX ==> next_serial(s) == s + 1,
{
}

} // verus!
