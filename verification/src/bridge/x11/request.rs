//! The requests of a client, as they come over the wire.
//!
//! A request is four bytes of header (opcode, minor opcode or a detail byte, length in
//! 4-byte units) and a body; the fields stand in the body at fixed places, little-endian.

use crate::bridge::x11::ext;
use crate::bridge::x11::ext::{
    Extensions, BIGREQ_OPCODE, DAMAGE_OPCODE, RANDR_OPCODE, SHM_OPCODE, XFIXES_OPCODE, XTEST_OPCODE,
};
use crate::bridge::x11::randr::ModeInfo;
use crate::bridge::x11::reply;
use crate::bridge::x11::wire;
use crate::util::geometry::Rectangle;
use crate::util::list;
use vstd::prelude::*;

verus! {

/// The largest request we accept, in 4-byte units including the header, as
/// advertised by `BigreqEnable`. Anything bigger is a broken or hostile client, and
/// is disconnected rather than allocated for.
pub const MAX_REQUEST_LENGTH: u32 = 4_194_303;

/// A request that is answered and changes nothing.
#[derive(Clone, Copy, PartialEq, Eq, Structural, Debug)]
pub enum Ask {
    GetAtomName { atom: u32 },
    ListExtensions,
    GetSelectionOwner { selection: u32 },
    GetInputFocus,
    GetGeometry,
    QueryTree,
    QueryPointer,
    TranslateCoordinates { x: i16, y: i16 },
    GetWindowAttributes,
    GetKeyboardMapping { first_keycode: u8, count: u8 },
    GetModifierMapping,
    GetPointerControl,
    GetScreenSaver,
    GetFontPath,
    GetPointerMapping,
    QueryKeymap,
    GetKeyboardControl,
    AllocColor { red: u16, green: u16, blue: u16 },
    LookupColor,
    QueryBestSize { width: u16, height: u16 },
    QueryFont,
    QueryTextExtents { characters: u64 },
    ListInstalledColormaps,
    GrabPointer,
    GrabKeyboard,
    XtestGetVersion,
    XtestCompareCursor,
    BigreqEnable,
    RandrQueryVersion,
    RandrGetScreenSizeRange,
    RandrGetScreenResources,
    RandrGetScreenInfo,
    RandrGetOutputInfo { output: u32 },
    RandrGetCrtcInfo { crtc: u32 },
    RandrGetPanning,
    RandrGetOutputPrimary,
    RandrGetCrtcGammaSize,
    RandrGetCrtcGamma,
    RandrGetCrtcTransform,
    RandrListOutputProperties,
    RandrGetOutputProperty,
    RandrQueryOutputProperty,
    RandrGetProviders,
    RandrGetMonitors,
    DamageQueryVersion,
    XfixesQueryVersion,
    XfixesGetCursorImage,
    XfixesGetCursorImageAndName,
    XfixesGetCursorName,
    XfixesGetClientDisconnectMode,
    XfixesFetchRegion { region: u32 },
    ShmQueryVersion,
}

/// A request that changes something, or whose answer is more than a matter of what
/// the server holds.
#[derive(Clone, Copy, PartialEq, Eq, Structural, Debug)]
pub enum Change {
    DeleteProperty { window: u32, property: u32 },
    GetProperty { delete: bool, window: u32, property: u32, type_: u32, long_offset: u32, long_length: u32 },
    ListProperties { window: u32 },
    SetSelectionOwner { owner: u32, selection: u32, time: u32 },
    ConvertSelection { requestor: u32, selection: u32, target: u32, property: u32, time: u32 },
    SelectSelectionInput { window: u32, selection: u32, mask: u32 },
    GetImage { x: i16, y: i16, width: u16, height: u16 },
    ShmAttach { shmseg: u32, shmid: u32 },
    ShmDetach { shmseg: u32 },
    ShmGetImage { x: i16, y: i16, width: u16, height: u16, shmseg: u32, offset: u32 },
    FakeInput { kind: u8, detail: u8, x: i16, y: i16 },
    AddOutputMode { output: u32, mode: u32 },
    DeleteOutputMode { output: u32, mode: u32 },
    DestroyMode { mode: u32 },
    SetCrtcConfig { crtc: u32, x: i16, y: i16, mode: u32 },
    SetScreenSize { width: u16, height: u16 },
    SelectRandr { window: u32, enable: u16 },
    DamageCreate { damage: u32, drawable: u32, level: u8 },
    DamageDestroy { damage: u32 },
    DamageSubtract { damage: u32, parts: u32 },
    DestroyRegion { region: u32 },
    CopyRegion { source: u32, destination: u32 },
    RegionExtents { source: u32, destination: u32 },
    SetEventMask { window: u32, mask: u32 },
    DestroyWindow { window: u32 },
    SelectCursorInput { window: u32, mask: u32 },
}

/// One request, over the types of its byte strings, lists of words and lists of
/// rectangles.
pub enum Request<B, W, R> {
    Ask(Ask),
    Change(Change),
    InternAtom { only_if_exists: bool, name: B },
    QueryExtension { name: B },
    QueryColors { pixels: W },
    ChangeProperty { mode: u8, window: u32, property: u32, type_: u32, format: u8, data: B },
    SendEvent { event: B },
    CreateMode { info: ModeInfo, name: B },
    SetRegion { region: u32, rectangles: R },
    /// The keyboard is not to repeat keys.
    NoAutoRepeat,
    /// Understood, and nothing is to be done.
    Nothing,
    /// Nothing we implement.
    Unknown,
}

/// A request as it is held.
pub type Parsed = Request<Vec<u8>, Vec<u32>, Vec<Rectangle>>;

/// A request as it is reasoned about.
pub type ParsedView = Request<Seq<u8>, Seq<u32>, Seq<Rectangle>>;

impl View for Parsed {
    type V = ParsedView;

    open spec fn view(&self) -> ParsedView {
        match *self {
            Request::Ask(a) => Request::Ask(a),
            Request::Change(c) => Request::Change(c),
            Request::InternAtom { only_if_exists, name } => Request::InternAtom { only_if_exists, name: name@ },
            Request::QueryExtension { name } => Request::QueryExtension { name: name@ },
            Request::QueryColors { pixels } => Request::QueryColors { pixels: pixels@ },
            Request::ChangeProperty { mode, window, property, type_, format, data } => Request::ChangeProperty {
                mode,
                window,
                property,
                type_,
                format,
                data: data@,
            },
            Request::SendEvent { event } => Request::SendEvent { event: event@ },
            Request::CreateMode { info, name } => Request::CreateMode { info, name: name@ },
            Request::SetRegion { region, rectangles } => Request::SetRegion { region, rectangles: rectangles@ },
            Request::NoAutoRepeat => Request::NoAutoRepeat,
            Request::Nothing => Request::Nothing,
            Request::Unknown => Request::Unknown,
        }
    }
}

/// The view of what was parsed, if anything was.
pub open spec fn parsed_view(r: Option<Parsed>) -> Option<ParsedView> {
    match r {
        Some(q) => Some(q@),
        None => None,
    }
}

/// `r`, of a body that has the `n` bytes it is read from.
pub open spec fn need(b: Seq<u8>, n: int, r: ParsedView) -> Option<ParsedView> {
    if b.len() < n {
        None
    } else {
        Some(r)
    }
}

/// The string at `at` whose length stands in the first two bytes.
pub open spec fn string_at(b: Seq<u8>, at: int) -> Option<Seq<u8>> {
    if b.len() < at || b.len() < at + wire::u16_at(b, 0) {
        None
    } else {
        Some(b.subrange(at, at + wire::u16_at(b, 0)))
    }
}

/// How many bytes a property's new data takes: `None` where that is past 32 bits.
pub open spec fn data_size(count: u32, format: u8) -> Option<int> {
    if count * format > u32::MAX {
        None
    } else {
        Some(count * format / 8)
    }
}

/// How many of the `n` lowest bits are set.
pub open spec fn bits_below(mask: u32, n: nat) -> nat
    decreases n,
{
    if n == 0 {
        0
    } else {
        bits_below(mask, (n - 1) as nat) + if (mask >> ((n - 1) as u32)) & 1 == 1 {
            1nat
        } else {
            0
        }
    }
}

/// Where in a window's list of values the event mask stands: each bit of `mask` has a
/// value, in the order of the bits, and the event mask is that of bit 11.
pub open spec fn mask_place(mask: u32) -> int {
    4 * (bits_below(mask, 11) as int)
}

/// A window's new event mask. The attributes' bits stand at `at`, their values after
/// them. Nothing follows from values without an event mask.
pub open spec fn event_mask(b: Seq<u8>, window: u32, at: int) -> Option<ParsedView> {
    if b.len() < at + 4 {
        None
    } else {
        let mask = wire::u32_at(b, at);
        if (mask >> 11u32) & 1 != 1 {
            Some(Request::Nothing)
        } else if b.len() < at + 8 + mask_place(mask) {
            None
        } else {
            Some(Request::Change(Change::SetEventMask { window, mask: wire::u32_at(b, at + 4 + mask_place(mask)) }))
        }
    }
}

/// What the keyboard's settings ask for. Their bits stand first, their values after them;
/// that of the auto-repeat mode is bit 7, which is off at 0. We do not care about bells
/// or lights.
pub open spec fn keyboard_control(b: Seq<u8>) -> Option<ParsedView> {
    if b.len() < 4 {
        None
    } else {
        let mask = wire::u32_at(b, 0);
        let place = 4 + 4 * (bits_below(mask, 7) as int);
        if (mask >> 7u32) & 1 != 1 {
            Some(Request::Nothing)
        } else if b.len() < place + 4 {
            None
        } else if wire::u32_at(b, place) == 0 {
            Some(Request::NoAutoRepeat)
        } else {
            Some(Request::Nothing)
        }
    }
}

/// The words from `at` on.
pub open spec fn words_from(b: Seq<u8>, at: int) -> Option<Seq<u32>> {
    if b.len() < at || (b.len() - at) % 4 != 0 {
        None
    } else {
        Some(Seq::new(((b.len() - at) / 4) as nat, |i: int| wire::u32_at(b, at + 4 * i)))
    }
}

/// The rectangles from `at` on.
pub open spec fn rects_from(b: Seq<u8>, at: int) -> Option<Seq<Rectangle>> {
    if b.len() < at || (b.len() - at) % 8 != 0 {
        None
    } else {
        Some(Seq::new(((b.len() - at) / 8) as nat, |i: int| wire::rect_at(b, at + 8 * i)))
    }
}

/// How many characters a text of two bytes each has, of which the last is padding
/// where `odd`.
pub open spec fn characters(b: Seq<u8>, odd: bool) -> Option<u64> {
    if b.len() < 4 || (b.len() - 4) % 2 != 0 || (odd && b.len() == 4) {
        None
    } else {
        Some(((b.len() - 4) / 2 - if odd { 1int } else { 0 }) as u64)
    }
}

/// The mode at `i`.
pub open spec fn mode_at(b: Seq<u8>, i: int) -> ModeInfo {
    ModeInfo {
        id: wire::u32_at(b, i),
        width: wire::u16_at(b, i + 4),
        height: wire::u16_at(b, i + 6),
        dot_clock: wire::u32_at(b, i + 8),
        hsync_start: wire::u16_at(b, i + 12),
        hsync_end: wire::u16_at(b, i + 14),
        htotal: wire::u16_at(b, i + 16),
        hskew: wire::u16_at(b, i + 18),
        vsync_start: wire::u16_at(b, i + 20),
        vsync_end: wire::u16_at(b, i + 22),
        vtotal: wire::u16_at(b, i + 24),
        name_len: wire::u16_at(b, i + 26),
        mode_flags: wire::u32_at(b, i + 28),
    }
}

/// The core requests.
pub open spec fn core_request(major: u8, minor: u8, b: Seq<u8>) -> Option<ParsedView> {
    match major {
        17 => need(b, 4, Request::Ask(Ask::GetAtomName { atom: wire::u32_at(b, 0) })),
        99 => Some(Request::Ask(Ask::ListExtensions)),
        19 => need(b, 8, Request::Change(Change::DeleteProperty { window: wire::u32_at(b, 0), property: wire::u32_at(b, 4) })),
        20 => need(b, 20, Request::Change(Change::GetProperty { delete: minor != 0, window: wire::u32_at(b, 0), property: wire::u32_at(b, 4), type_: wire::u32_at(b, 8), long_offset: wire::u32_at(b, 12), long_length: wire::u32_at(b, 16) })),
        21 => need(b, 4, Request::Change(Change::ListProperties { window: wire::u32_at(b, 0) })),
        22 => need(b, 12, Request::Change(Change::SetSelectionOwner { owner: wire::u32_at(b, 0), selection: wire::u32_at(b, 4), time: wire::u32_at(b, 8) })),
        23 => need(b, 4, Request::Ask(Ask::GetSelectionOwner { selection: wire::u32_at(b, 0) })),
        24 => need(b, 20, Request::Change(Change::ConvertSelection { requestor: wire::u32_at(b, 0), selection: wire::u32_at(b, 4), target: wire::u32_at(b, 8), property: wire::u32_at(b, 12), time: wire::u32_at(b, 16) })),
        43 => Some(Request::Ask(Ask::GetInputFocus)),
        14 => Some(Request::Ask(Ask::GetGeometry)),
        15 => Some(Request::Ask(Ask::QueryTree)),
        38 => Some(Request::Ask(Ask::QueryPointer)),
        40 => need(b, 12, Request::Ask(Ask::TranslateCoordinates { x: wire::i16_at(b, 8), y: wire::i16_at(b, 10) })),
        3 => Some(Request::Ask(Ask::GetWindowAttributes)),
        101 => need(b, 2, Request::Ask(Ask::GetKeyboardMapping { first_keycode: b[0], count: b[1] })),
        119 => Some(Request::Ask(Ask::GetModifierMapping)),
        106 => Some(Request::Ask(Ask::GetPointerControl)),
        108 => Some(Request::Ask(Ask::GetScreenSaver)),
        52 => Some(Request::Ask(Ask::GetFontPath)),
        117 => Some(Request::Ask(Ask::GetPointerMapping)),
        44 => Some(Request::Ask(Ask::QueryKeymap)),
        103 => Some(Request::Ask(Ask::GetKeyboardControl)),
        84 => need(b, 12, Request::Ask(Ask::AllocColor { red: wire::u16_at(b, 4), green: wire::u16_at(b, 6), blue: wire::u16_at(b, 8) })),
        92 => Some(Request::Ask(Ask::LookupColor)),
        73 => need(b, 16, Request::Change(Change::GetImage { x: wire::i16_at(b, 4), y: wire::i16_at(b, 6), width: wire::u16_at(b, 8), height: wire::u16_at(b, 10) })),
        97 => need(b, 8, Request::Ask(Ask::QueryBestSize { width: wire::u16_at(b, 4), height: wire::u16_at(b, 6) })),
        47 => Some(Request::Ask(Ask::QueryFont)),
        83 => Some(Request::Ask(Ask::ListInstalledColormaps)),
        26 => Some(Request::Ask(Ask::GrabPointer)),
        31 => Some(Request::Ask(Ask::GrabKeyboard)),
        4 => need(b, 4, Request::Change(Change::DestroyWindow { window: wire::u32_at(b, 0) })),
        1 => if b.len() < 4 {
            None
        } else {
            event_mask(b, wire::u32_at(b, 0), 24)
        },
        2 => if b.len() < 4 {
            None
        } else {
            event_mask(b, wire::u32_at(b, 0), 4)
        },
        16 => match string_at(b, 4) {
            Some(name) => Some(Request::InternAtom { only_if_exists: minor != 0, name }),
            None => None,
        },
        98 => match string_at(b, 4) {
            Some(name) => Some(Request::QueryExtension { name }),
            None => None,
        },
        18 => if b.len() < 20 {
            None
        } else {
            match data_size(wire::u32_at(b, 16), b[12]) {
                Some(n) if 20 + n <= b.len() => Some(
                    Request::ChangeProperty {
                        mode: minor,
                        window: wire::u32_at(b, 0),
                        property: wire::u32_at(b, 4),
                        type_: wire::u32_at(b, 8),
                        format: b[12],
                        data: b.subrange(20, 20 + n),
                    },
                ),
                _ => None,
            }
        },
        25 => need(b, 40, Request::SendEvent { event: b.subrange(8, 40) }),
        48 => match characters(b, minor != 0) {
            Some(n) => Some(Request::Ask(Ask::QueryTextExtents { characters: n })),
            None => None,
        },
        91 => match words_from(b, 4) {
            Some(pixels) => Some(Request::QueryColors { pixels }),
            None => None,
        },
        102 => keyboard_control(b),
        // mapping, moving and unmapping windows, graphics contexts and fonts
        8 | 10 | 12 | 45 | 55 | 56 | 60 => Some(Request::Nothing),
        _ => Some(Request::Unknown),
    }
}

/// The requests of MIT-SHM.
pub open spec fn shm_request(minor: u8, b: Seq<u8>) -> Option<ParsedView> {
    match minor {
        0 => Some(Request::Ask(Ask::ShmQueryVersion)),
        1 => need(b, 12, Request::Change(Change::ShmAttach { shmseg: wire::u32_at(b, 0), shmid: wire::u32_at(b, 4) })),
        2 => need(b, 4, Request::Change(Change::ShmDetach { shmseg: wire::u32_at(b, 0) })),
        4 => need(b, 28, Request::Change(Change::ShmGetImage { x: wire::i16_at(b, 4), y: wire::i16_at(b, 6), width: wire::u16_at(b, 8), height: wire::u16_at(b, 10), shmseg: wire::u32_at(b, 20), offset: wire::u32_at(b, 24) })),
        5 | 6 => Some(Request::Nothing),
        _ => Some(Request::Unknown),
    }
}

/// The requests of XTEST.
pub open spec fn xtest_request(minor: u8, b: Seq<u8>) -> Option<ParsedView> {
    match minor {
        0 => Some(Request::Ask(Ask::XtestGetVersion)),
        1 => Some(Request::Ask(Ask::XtestCompareCursor)),
        2 => need(b, 32, Request::Change(Change::FakeInput { kind: b[0], detail: b[1], x: wire::i16_at(b, 20), y: wire::i16_at(b, 22) })),
        3 => Some(Request::Nothing),
        _ => Some(Request::Unknown),
    }
}

/// The requests of RANDR.
pub open spec fn randr_request(minor: u8, b: Seq<u8>) -> Option<ParsedView> {
    match minor {
        0 => Some(Request::Ask(Ask::RandrQueryVersion)),
        4 => need(b, 8, Request::Change(Change::SelectRandr { window: wire::u32_at(b, 0), enable: wire::u16_at(b, 4) })),
        5 => Some(Request::Ask(Ask::RandrGetScreenInfo)),
        6 => Some(Request::Ask(Ask::RandrGetScreenSizeRange)),
        7 => need(b, 16, Request::Change(Change::SetScreenSize { width: wire::u16_at(b, 4), height: wire::u16_at(b, 6) })),
        8 => Some(Request::Ask(Ask::RandrGetScreenResources)),
        25 => Some(Request::Ask(Ask::RandrGetScreenResources)),
        9 => need(b, 8, Request::Ask(Ask::RandrGetOutputInfo { output: wire::u32_at(b, 0) })),
        10 => Some(Request::Ask(Ask::RandrListOutputProperties)),
        11 => Some(Request::Ask(Ask::RandrQueryOutputProperty)),
        15 => Some(Request::Ask(Ask::RandrGetOutputProperty)),
        17 => need(b, 4, Request::Change(Change::DestroyMode { mode: wire::u32_at(b, 0) })),
        18 => need(b, 8, Request::Change(Change::AddOutputMode { output: wire::u32_at(b, 0), mode: wire::u32_at(b, 4) })),
        19 => need(b, 8, Request::Change(Change::DeleteOutputMode { output: wire::u32_at(b, 0), mode: wire::u32_at(b, 4) })),
        20 => need(b, 8, Request::Ask(Ask::RandrGetCrtcInfo { crtc: wire::u32_at(b, 0) })),
        22 => Some(Request::Ask(Ask::RandrGetCrtcGammaSize)),
        23 => Some(Request::Ask(Ask::RandrGetCrtcGamma)),
        27 => Some(Request::Ask(Ask::RandrGetCrtcTransform)),
        28 => Some(Request::Ask(Ask::RandrGetPanning)),
        31 => Some(Request::Ask(Ask::RandrGetOutputPrimary)),
        32 => Some(Request::Ask(Ask::RandrGetProviders)),
        42 => Some(Request::Ask(Ask::RandrGetMonitors)),
        16 => need(b, 36, Request::CreateMode { info: mode_at(b, 4), name: b.skip(36) }),
        21 => if b.len() < 24 || (b.len() - 24) % 4 != 0 {
            None
        } else {
            Some(
                Request::Change(
                    Change::SetCrtcConfig {
                        crtc: wire::u32_at(b, 0),
                        x: wire::i16_at(b, 12),
                        y: wire::i16_at(b, 14),
                        mode: wire::u32_at(b, 16),
                    },
                ),
            )
        },
        _ => Some(Request::Unknown),
    }
}

/// The requests of DAMAGE.
pub open spec fn damage_request(minor: u8, b: Seq<u8>) -> Option<ParsedView> {
    match minor {
        0 => Some(Request::Ask(Ask::DamageQueryVersion)),
        1 => need(b, 12, Request::Change(Change::DamageCreate { damage: wire::u32_at(b, 0), drawable: wire::u32_at(b, 4), level: b[8] })),
        2 => need(b, 4, Request::Change(Change::DamageDestroy { damage: wire::u32_at(b, 0) })),
        3 => need(b, 12, Request::Change(Change::DamageSubtract { damage: wire::u32_at(b, 0), parts: wire::u32_at(b, 8) })),
        _ => Some(Request::Unknown),
    }
}

/// The requests of XFIXES.
pub open spec fn xfixes_request(minor: u8, b: Seq<u8>) -> Option<ParsedView> {
    match minor {
        0 => Some(Request::Ask(Ask::XfixesQueryVersion)),
        2 => need(b, 12, Request::Change(Change::SelectSelectionInput { window: wire::u32_at(b, 0), selection: wire::u32_at(b, 4), mask: wire::u32_at(b, 8) })),
        3 => need(b, 8, Request::Change(Change::SelectCursorInput { window: wire::u32_at(b, 0), mask: wire::u32_at(b, 4) })),
        4 => Some(Request::Ask(Ask::XfixesGetCursorImage)),
        10 => need(b, 4, Request::Change(Change::DestroyRegion { region: wire::u32_at(b, 0) })),
        12 => need(b, 8, Request::Change(Change::CopyRegion { source: wire::u32_at(b, 0), destination: wire::u32_at(b, 4) })),
        18 => need(b, 8, Request::Change(Change::RegionExtents { source: wire::u32_at(b, 0), destination: wire::u32_at(b, 4) })),
        19 => need(b, 4, Request::Ask(Ask::XfixesFetchRegion { region: wire::u32_at(b, 0) })),
        24 => Some(Request::Ask(Ask::XfixesGetCursorName)),
        25 => Some(Request::Ask(Ask::XfixesGetCursorImageAndName)),
        34 => Some(Request::Ask(Ask::XfixesGetClientDisconnectMode)),
        5 | 11 => if b.len() < 4 {
            None
        } else {
            match rects_from(b, 4) {
                Some(rectangles) => Some(Request::SetRegion { region: wire::u32_at(b, 0), rectangles }),
                None => None,
            }
        },
        _ => Some(Request::Unknown),
    }
}

/// The request that the opcodes and the body hold, `None` where the body is too short
/// for it or of no length it can have.
#[verifier::opaque]
pub open spec fn request(major: u8, minor: u8, b: Seq<u8>) -> Option<ParsedView> {
    if major < 128 {
        core_request(major, minor, b)
    } else if major == SHM_OPCODE {
        shm_request(minor, b)
    } else if major == XTEST_OPCODE {
        xtest_request(minor, b)
    } else if major == RANDR_OPCODE {
        randr_request(minor, b)
    } else if major == DAMAGE_OPCODE {
        damage_request(minor, b)
    } else if major == BIGREQ_OPCODE {
        if minor == 0 {
            Some(Request::Ask(Ask::BigreqEnable))
        } else {
            Some(Request::Unknown)
        }
    } else if major == XFIXES_OPCODE {
        xfixes_request(minor, b)
    } else {
        Some(Request::Unknown)
    }
}

fn string(b: &[u8], at: usize) -> (r: Option<Vec<u8>>)
    requires
        4 <= at < 100,
    ensures
        match r {
            Some(v) => Some(v@),
            None => None,
        } == string_at(b@, at as int),
{
    assert(b.len() == b@.len());
    if b.len() < at {
        return None;
    }
    let n: usize = wire::get16(b, 0) as usize;
    if b.len() - at < n {
        return None;
    }
    Some(list::copy_range(b, at, at + n))
}

fn count_below(mask: u32, bits: u32) -> (n: usize)
    requires
        bits <= 31,
    ensures
        n == bits_below(mask, bits as nat),
        n <= bits,
{
    let mut n: usize = 0;
    let mut i: u32 = 0;
    while i < bits
        invariant
            i <= bits <= 31,
            n <= i,
            n == bits_below(mask, i as nat),
        decreases bits - i,
    {
        if (mask >> i) & 1 == 1 {
            n += 1;
        }
        i += 1;
    }
    n
}

fn mask_of(b: &[u8], window: u32, at: usize) -> (r: Option<Parsed>)
    requires
        at < 100,
    ensures
        parsed_view(r) == event_mask(b@, window, at as int),
{
    assert(b.len() == b@.len());
    if b.len() < at + 4 {
        return None;
    }
    let mask: u32 = wire::get32(b, at);
    if (mask >> 11u32) & 1 != 1 {
        return Some(Request::Nothing);
    }
    let place: usize = 4 * count_below(mask, 11);
    if b.len() < at + 8 + place {
        return None;
    }
    Some(Request::Change(Change::SetEventMask { window, mask: wire::get32(b, at + 4 + place) }))
}

fn keyboard_control_of(b: &[u8]) -> (r: Option<Parsed>)
    ensures
        parsed_view(r) == keyboard_control(b@),
{
    assert(b.len() == b@.len());
    if b.len() < 4 {
        return None;
    }
    let mask: u32 = wire::get32(b, 0);
    if (mask >> 7u32) & 1 != 1 {
        return Some(Request::Nothing);
    }
    let place: usize = 4 + 4 * count_below(mask, 7);
    if b.len() < place + 4 {
        return None;
    }
    if wire::get32(b, place) == 0 {
        Some(Request::NoAutoRepeat)
    } else {
        Some(Request::Nothing)
    }
}

fn words(b: &[u8], at: usize) -> (r: Option<Vec<u32>>)
    requires
        at < 100,
    ensures
        match r {
            Some(v) => Some(v@),
            None => None,
        } == words_from(b@, at as int),
{
    assert(b.len() == b@.len());
    if b.len() < at || (b.len() - at) % 4 != 0 {
        return None;
    }
    let mut v: Vec<u32> = Vec::new();
    let mut i: usize = at;
    while i < b.len()
        invariant
            at <= i <= b.len(),
            b.len() == b@.len(),
            (b.len() - at) % 4 == 0,
            (i - at) % 4 == 0,
            v@.len() == (i - at) / 4,
            forall|j: int| 0 <= j < v@.len() ==> #[trigger] v@[j] == wire::u32_at(b@, at + 4 * j),
        decreases b.len() - i,
    {
        v.push(wire::get32(b, i));
        i += 4;
    }
    assert(v@ =~= words_from(b@, at as int)->0);
    Some(v)
}

fn rects(b: &[u8], at: usize) -> (r: Option<Vec<Rectangle>>)
    requires
        at < 100,
    ensures
        match r {
            Some(v) => Some(v@),
            None => None,
        } == rects_from(b@, at as int),
{
    assert(b.len() == b@.len());
    if b.len() < at || (b.len() - at) % 8 != 0 {
        return None;
    }
    let mut v: Vec<Rectangle> = Vec::new();
    let mut i: usize = at;
    while i < b.len()
        invariant
            at <= i <= b.len(),
            b.len() == b@.len(),
            (b.len() - at) % 8 == 0,
            (i - at) % 8 == 0,
            v@.len() == (i - at) / 8,
            forall|j: int| 0 <= j < v@.len() ==> #[trigger] v@[j] == wire::rect_at(b@, at + 8 * j),
        decreases b.len() - i,
    {
        v.push(wire::get_rect(b, i));
        i += 8;
    }
    assert(v@ =~= rects_from(b@, at as int)->0);
    Some(v)
}

fn mode(b: &[u8], i: usize) -> (m: ModeInfo)
    requires
        i + 32 <= b@.len(),
    ensures
        m == mode_at(b@, i as int),
{
    assert(b.len() == b@.len());
    ModeInfo {
        id: wire::get32(b, i),
        width: wire::get16(b, i + 4),
        height: wire::get16(b, i + 6),
        dot_clock: wire::get32(b, i + 8),
        hsync_start: wire::get16(b, i + 12),
        hsync_end: wire::get16(b, i + 14),
        htotal: wire::get16(b, i + 16),
        hskew: wire::get16(b, i + 18),
        vsync_start: wire::get16(b, i + 20),
        vsync_end: wire::get16(b, i + 22),
        vtotal: wire::get16(b, i + 24),
        name_len: wire::get16(b, i + 26),
        mode_flags: wire::get32(b, i + 28),
    }
}

fn new_property(minor: u8, b: &[u8]) -> (r: Option<Parsed>)
    ensures
        parsed_view(r) == core_request(18, minor, b@),
{
    assert(b.len() == b@.len());
    if b.len() < 20 {
        return None;
    }
    let format: u8 = b[12];
    let bits: u64 = {
        let count: u64 = wire::get32(b, 16) as u64;
        assert(count * format <= 0xffff_ffff * 255) by (nonlinear_arith)
            requires
                count <= 0xffff_ffff,
                format <= 255,
        ;
        count * format as u64
    };
    if bits > 0xffff_ffff {
        return None;
    }
    let n: u64 = bits / 8;
    if n > (b.len() - 20) as u64 {
        return None;
    }
    Some(
        Request::ChangeProperty {
            mode: minor,
            window: wire::get32(b, 0),
            property: wire::get32(b, 4),
            type_: wire::get32(b, 8),
            format,
            data: list::copy_range(b, 20, 20 + n as usize),
        },
    )
}

fn core_of(major: u8, minor: u8, b: &[u8]) -> (r: Option<Parsed>)
    ensures
        parsed_view(r) == core_request(major, minor, b@),
{
    assert(b.len() == b@.len());
    match major {
        17 => if b.len() < 4 {
            None
        } else {
            Some(Request::Ask(Ask::GetAtomName { atom: wire::get32(b, 0) }))
        },
        99 => Some(Request::Ask(Ask::ListExtensions)),
        19 => if b.len() < 8 {
            None
        } else {
            Some(Request::Change(Change::DeleteProperty { window: wire::get32(b, 0), property: wire::get32(b, 4) }))
        },
        20 => if b.len() < 20 {
            None
        } else {
            Some(Request::Change(Change::GetProperty { delete: minor != 0, window: wire::get32(b, 0), property: wire::get32(b, 4), type_: wire::get32(b, 8), long_offset: wire::get32(b, 12), long_length: wire::get32(b, 16) }))
        },
        21 => if b.len() < 4 {
            None
        } else {
            Some(Request::Change(Change::ListProperties { window: wire::get32(b, 0) }))
        },
        22 => if b.len() < 12 {
            None
        } else {
            Some(Request::Change(Change::SetSelectionOwner { owner: wire::get32(b, 0), selection: wire::get32(b, 4), time: wire::get32(b, 8) }))
        },
        23 => if b.len() < 4 {
            None
        } else {
            Some(Request::Ask(Ask::GetSelectionOwner { selection: wire::get32(b, 0) }))
        },
        24 => if b.len() < 20 {
            None
        } else {
            Some(Request::Change(Change::ConvertSelection { requestor: wire::get32(b, 0), selection: wire::get32(b, 4), target: wire::get32(b, 8), property: wire::get32(b, 12), time: wire::get32(b, 16) }))
        },
        43 => Some(Request::Ask(Ask::GetInputFocus)),
        14 => Some(Request::Ask(Ask::GetGeometry)),
        15 => Some(Request::Ask(Ask::QueryTree)),
        38 => Some(Request::Ask(Ask::QueryPointer)),
        40 => if b.len() < 12 {
            None
        } else {
            Some(Request::Ask(Ask::TranslateCoordinates { x: wire::get_i16(b, 8), y: wire::get_i16(b, 10) }))
        },
        3 => Some(Request::Ask(Ask::GetWindowAttributes)),
        101 => if b.len() < 2 {
            None
        } else {
            Some(Request::Ask(Ask::GetKeyboardMapping { first_keycode: b[0], count: b[1] }))
        },
        119 => Some(Request::Ask(Ask::GetModifierMapping)),
        106 => Some(Request::Ask(Ask::GetPointerControl)),
        108 => Some(Request::Ask(Ask::GetScreenSaver)),
        52 => Some(Request::Ask(Ask::GetFontPath)),
        117 => Some(Request::Ask(Ask::GetPointerMapping)),
        44 => Some(Request::Ask(Ask::QueryKeymap)),
        103 => Some(Request::Ask(Ask::GetKeyboardControl)),
        84 => if b.len() < 12 {
            None
        } else {
            Some(Request::Ask(Ask::AllocColor { red: wire::get16(b, 4), green: wire::get16(b, 6), blue: wire::get16(b, 8) }))
        },
        92 => Some(Request::Ask(Ask::LookupColor)),
        73 => if b.len() < 16 {
            None
        } else {
            Some(Request::Change(Change::GetImage { x: wire::get_i16(b, 4), y: wire::get_i16(b, 6), width: wire::get16(b, 8), height: wire::get16(b, 10) }))
        },
        97 => if b.len() < 8 {
            None
        } else {
            Some(Request::Ask(Ask::QueryBestSize { width: wire::get16(b, 4), height: wire::get16(b, 6) }))
        },
        47 => Some(Request::Ask(Ask::QueryFont)),
        83 => Some(Request::Ask(Ask::ListInstalledColormaps)),
        26 => Some(Request::Ask(Ask::GrabPointer)),
        31 => Some(Request::Ask(Ask::GrabKeyboard)),
        4 => if b.len() < 4 {
            None
        } else {
            Some(Request::Change(Change::DestroyWindow { window: wire::get32(b, 0) }))
        },
        1 => if b.len() < 4 {
            None
        } else {
            mask_of(b, wire::get32(b, 0), 24)
        },
        2 => if b.len() < 4 {
            None
        } else {
            mask_of(b, wire::get32(b, 0), 4)
        },
        16 => match string(b, 4) {
            Some(name) => Some(Request::InternAtom { only_if_exists: minor != 0, name }),
            None => None,
        },
        98 => match string(b, 4) {
            Some(name) => Some(Request::QueryExtension { name }),
            None => None,
        },
        18 => new_property(minor, b),
        25 => if b.len() < 40 {
            None
        } else {
            Some(Request::SendEvent { event: list::copy_range(b, 8, 40) })
        },
        48 => if b.len() < 4 || (b.len() - 4) % 2 != 0 || (minor != 0 && b.len() == 4) {
            None
        } else {
            let all: u64 = ((b.len() - 4) / 2) as u64;
            Some(Request::Ask(Ask::QueryTextExtents { characters: if minor != 0 { all - 1 } else { all } }))
        },
        91 => match words(b, 4) {
            Some(pixels) => Some(Request::QueryColors { pixels }),
            None => None,
        },
        102 => keyboard_control_of(b),
        8 | 10 | 12 | 45 | 55 | 56 | 60 => Some(Request::Nothing),
        _ => Some(Request::Unknown),
    }
}

fn shm_of(minor: u8, b: &[u8]) -> (r: Option<Parsed>)
    ensures
        parsed_view(r) == shm_request(minor, b@),
{
    assert(b.len() == b@.len());
    match minor {
        0 => Some(Request::Ask(Ask::ShmQueryVersion)),
        1 => if b.len() < 12 {
            None
        } else {
            Some(Request::Change(Change::ShmAttach { shmseg: wire::get32(b, 0), shmid: wire::get32(b, 4) }))
        },
        2 => if b.len() < 4 {
            None
        } else {
            Some(Request::Change(Change::ShmDetach { shmseg: wire::get32(b, 0) }))
        },
        4 => if b.len() < 28 {
            None
        } else {
            Some(Request::Change(Change::ShmGetImage { x: wire::get_i16(b, 4), y: wire::get_i16(b, 6), width: wire::get16(b, 8), height: wire::get16(b, 10), shmseg: wire::get32(b, 20), offset: wire::get32(b, 24) }))
        },
        5 | 6 => Some(Request::Nothing),
        _ => Some(Request::Unknown),
    }
}

fn xtest_of(minor: u8, b: &[u8]) -> (r: Option<Parsed>)
    ensures
        parsed_view(r) == xtest_request(minor, b@),
{
    assert(b.len() == b@.len());
    match minor {
        0 => Some(Request::Ask(Ask::XtestGetVersion)),
        1 => Some(Request::Ask(Ask::XtestCompareCursor)),
        2 => if b.len() < 32 {
            None
        } else {
            Some(Request::Change(Change::FakeInput { kind: b[0], detail: b[1], x: wire::get_i16(b, 20), y: wire::get_i16(b, 22) }))
        },
        3 => Some(Request::Nothing),
        _ => Some(Request::Unknown),
    }
}

fn randr_of(minor: u8, b: &[u8]) -> (r: Option<Parsed>)
    ensures
        parsed_view(r) == randr_request(minor, b@),
{
    assert(b.len() == b@.len());
    match minor {
        0 => Some(Request::Ask(Ask::RandrQueryVersion)),
        4 => if b.len() < 8 {
            None
        } else {
            Some(Request::Change(Change::SelectRandr { window: wire::get32(b, 0), enable: wire::get16(b, 4) }))
        },
        5 => Some(Request::Ask(Ask::RandrGetScreenInfo)),
        6 => Some(Request::Ask(Ask::RandrGetScreenSizeRange)),
        7 => if b.len() < 16 {
            None
        } else {
            Some(Request::Change(Change::SetScreenSize { width: wire::get16(b, 4), height: wire::get16(b, 6) }))
        },
        8 => Some(Request::Ask(Ask::RandrGetScreenResources)),
        25 => Some(Request::Ask(Ask::RandrGetScreenResources)),
        9 => if b.len() < 8 {
            None
        } else {
            Some(Request::Ask(Ask::RandrGetOutputInfo { output: wire::get32(b, 0) }))
        },
        10 => Some(Request::Ask(Ask::RandrListOutputProperties)),
        11 => Some(Request::Ask(Ask::RandrQueryOutputProperty)),
        15 => Some(Request::Ask(Ask::RandrGetOutputProperty)),
        17 => if b.len() < 4 {
            None
        } else {
            Some(Request::Change(Change::DestroyMode { mode: wire::get32(b, 0) }))
        },
        18 => if b.len() < 8 {
            None
        } else {
            Some(Request::Change(Change::AddOutputMode { output: wire::get32(b, 0), mode: wire::get32(b, 4) }))
        },
        19 => if b.len() < 8 {
            None
        } else {
            Some(Request::Change(Change::DeleteOutputMode { output: wire::get32(b, 0), mode: wire::get32(b, 4) }))
        },
        20 => if b.len() < 8 {
            None
        } else {
            Some(Request::Ask(Ask::RandrGetCrtcInfo { crtc: wire::get32(b, 0) }))
        },
        22 => Some(Request::Ask(Ask::RandrGetCrtcGammaSize)),
        23 => Some(Request::Ask(Ask::RandrGetCrtcGamma)),
        27 => Some(Request::Ask(Ask::RandrGetCrtcTransform)),
        28 => Some(Request::Ask(Ask::RandrGetPanning)),
        31 => Some(Request::Ask(Ask::RandrGetOutputPrimary)),
        32 => Some(Request::Ask(Ask::RandrGetProviders)),
        42 => Some(Request::Ask(Ask::RandrGetMonitors)),
        16 => if b.len() < 36 {
            None
        } else {
            Some(Request::CreateMode { info: mode(b, 4), name: list::copy_range(b, 36, b.len()) })
        },
        21 => if b.len() < 24 || (b.len() - 24) % 4 != 0 {
            None
        } else {
            Some(
                Request::Change(
                    Change::SetCrtcConfig {
                        crtc: wire::get32(b, 0),
                        x: wire::get_i16(b, 12),
                        y: wire::get_i16(b, 14),
                        mode: wire::get32(b, 16),
                    },
                ),
            )
        },
        _ => Some(Request::Unknown),
    }
}

fn damage_of(minor: u8, b: &[u8]) -> (r: Option<Parsed>)
    ensures
        parsed_view(r) == damage_request(minor, b@),
{
    assert(b.len() == b@.len());
    match minor {
        0 => Some(Request::Ask(Ask::DamageQueryVersion)),
        1 => if b.len() < 12 {
            None
        } else {
            Some(Request::Change(Change::DamageCreate { damage: wire::get32(b, 0), drawable: wire::get32(b, 4), level: b[8] }))
        },
        2 => if b.len() < 4 {
            None
        } else {
            Some(Request::Change(Change::DamageDestroy { damage: wire::get32(b, 0) }))
        },
        3 => if b.len() < 12 {
            None
        } else {
            Some(Request::Change(Change::DamageSubtract { damage: wire::get32(b, 0), parts: wire::get32(b, 8) }))
        },
        _ => Some(Request::Unknown),
    }
}

fn xfixes_of(minor: u8, b: &[u8]) -> (r: Option<Parsed>)
    ensures
        parsed_view(r) == xfixes_request(minor, b@),
{
    assert(b.len() == b@.len());
    match minor {
        0 => Some(Request::Ask(Ask::XfixesQueryVersion)),
        2 => if b.len() < 12 {
            None
        } else {
            Some(Request::Change(Change::SelectSelectionInput { window: wire::get32(b, 0), selection: wire::get32(b, 4), mask: wire::get32(b, 8) }))
        },
        3 => if b.len() < 8 {
            None
        } else {
            Some(Request::Change(Change::SelectCursorInput { window: wire::get32(b, 0), mask: wire::get32(b, 4) }))
        },
        4 => Some(Request::Ask(Ask::XfixesGetCursorImage)),
        10 => if b.len() < 4 {
            None
        } else {
            Some(Request::Change(Change::DestroyRegion { region: wire::get32(b, 0) }))
        },
        12 => if b.len() < 8 {
            None
        } else {
            Some(Request::Change(Change::CopyRegion { source: wire::get32(b, 0), destination: wire::get32(b, 4) }))
        },
        18 => if b.len() < 8 {
            None
        } else {
            Some(Request::Change(Change::RegionExtents { source: wire::get32(b, 0), destination: wire::get32(b, 4) }))
        },
        19 => if b.len() < 4 {
            None
        } else {
            Some(Request::Ask(Ask::XfixesFetchRegion { region: wire::get32(b, 0) }))
        },
        24 => Some(Request::Ask(Ask::XfixesGetCursorName)),
        25 => Some(Request::Ask(Ask::XfixesGetCursorImageAndName)),
        34 => Some(Request::Ask(Ask::XfixesGetClientDisconnectMode)),
        5 | 11 => if b.len() < 4 {
            None
        } else {
            match rects(b, 4) {
                Some(rectangles) => Some(Request::SetRegion { region: wire::get32(b, 0), rectangles }),
                None => None,
            }
        },
        _ => Some(Request::Unknown),
    }
}

/// Reads a request from its opcodes and its body.
pub fn parse(major: u8, minor: u8, b: &[u8]) -> (r: Option<Parsed>)
    ensures
        parsed_view(r) == request(major, minor, b@),
{
    proof {
        reveal(request);
    }
    if major < 128 {
        core_of(major, minor, b)
    } else if major == SHM_OPCODE {
        shm_of(minor, b)
    } else if major == XTEST_OPCODE {
        xtest_of(minor, b)
    } else if major == RANDR_OPCODE {
        randr_of(minor, b)
    } else if major == DAMAGE_OPCODE {
        damage_of(minor, b)
    } else if major == BIGREQ_OPCODE {
        if minor == 0 {
            Some(Request::Ask(Ask::BigreqEnable))
        } else {
            Some(Request::Unknown)
        }
    } else if major == XFIXES_OPCODE {
        xfixes_of(minor, b)
    } else {
        Some(Request::Unknown)
    }
}

/// How much of a request is still to be read after its header.
#[derive(Clone, Copy, PartialEq, Eq, Structural, Debug)]
pub enum Remaining {
    /// A body of so many 4-byte units.
    Units(u32),
    /// BIG-REQUESTS: the length follows in four more bytes.
    Extended,
}

/// A request's opcode, its detail byte, and what follows its header.
#[derive(Clone, Copy, PartialEq, Eq, Structural, Debug)]
pub struct Header {
    pub major_opcode: u8,
    pub minor_opcode: u8,
    pub remaining: Remaining,
}

/// Reads a request's four bytes of header. The length counts the header, in 4-byte
/// units; 0 says that it did not fit.
pub fn header(b: [u8; 4]) -> (h: Header)
    ensures
        h.major_opcode == b@[0],
        h.minor_opcode == b@[1],
        h.remaining == (if wire::u16_at(b@, 2) == 0 {
            Remaining::Extended
        } else {
            Remaining::Units((wire::u16_at(b@, 2) - 1) as u32)
        }),
{
    let length: u32 = b[2] as u32 + 256 * b[3] as u32;
    Header {
        major_opcode: b[0],
        minor_opcode: b[1],
        remaining: if length == 0 {
            Remaining::Extended
        } else {
            Remaining::Units(length - 1)
        },
    }
}

/// One request, as it was read.
pub struct RawRequest {
    pub major_opcode: u8,
    pub minor_opcode: u8,
    /// The length of the body in 4-byte units.
    pub remaining_length: u32,
    /// Everything after the header of four or eight bytes.
    pub body: Vec<u8>,
}

/// Whether `x11rb_protocol::protocol::Request::parse` admits a request, with the
/// extensions of [`ext::offered`]: its opcodes, its length and its body.
pub uninterp spec fn admitted(major: u8, minor: u8, remaining_length: u32, body: Seq<u8>) -> bool;

/// `x11rb_protocol::protocol::Request::parse`, without file descriptors: whether the
/// request is taken. The contract gives the answer its name. It is for the extensions
/// that are offered; among others are some whose requests allocate by a count that they
/// only state.
#[verifier::external_body]
fn is_admitted(raw: &RawRequest, known: &Extensions) -> (b: bool)
    requires
        known@ == ext::offered(),
    ensures
        b == admitted(raw.major_opcode, raw.minor_opcode, raw.remaining_length, raw.body@),
{
    let header = x11rb_protocol::x11_utils::RequestHeader {
        major_opcode: raw.major_opcode,
        minor_opcode: raw.minor_opcode,
        remaining_length: raw.remaining_length,
    };
    x11rb_protocol::protocol::Request::parse(header, &raw.body, &mut Vec::new(), known).is_ok()
}

impl RawRequest {
    /// Whether the protocol's grammar admits the request.
    pub fn well_formed(&self) -> (b: bool)
        ensures
            b == admitted(self.major_opcode, self.minor_opcode, self.remaining_length, self.body@),
    {
        is_admitted(self, &ext::extensions())
    }
}

/// A request longer than we accept: its length, in 4-byte units.
#[derive(Clone, Copy, PartialEq, Eq, Structural, Debug)]
pub struct TooLong(pub u32);

/// The length of the body behind an extended header, in 4-byte units: the four bytes
/// count it together with the header, which is then two units.
pub fn extended_length(b: [u8; 4]) -> (r: Result<u32, TooLong>)
    ensures
        r == (if wire::u32_at(b@, 0) > MAX_REQUEST_LENGTH {
            Err(TooLong(wire::u32_at(b@, 0)))
        } else if wire::u32_at(b@, 0) < 2 {
            Ok(0u32)
        } else {
            Ok((wire::u32_at(b@, 0) - 2) as u32)
        }),
{
    let length: u32 = wire::get32(b.as_slice(), 0);
    if length > MAX_REQUEST_LENGTH {
        Err(TooLong(length))
    } else if length < 2 {
        Ok(0)
    } else {
        Ok(length - 2)
    }
}

/// What a stretch of input holds.
pub enum Input {
    /// A whole request, and how many bytes it takes.
    Request(RawRequest, usize),
    /// The start of a request: so many bytes of it are to be had before more is known.
    More(usize),
    TooLong(TooLong),
    /// The input ended between requests.
    End,
    /// The input ended inside a request.
    UnexpectedEnd,
}

/// How long the header is: four bytes, or eight with an extended length.
pub open spec fn header_size(b: Seq<u8>) -> int {
    if wire::u16_at(b, 2) == 0 {
        8
    } else {
        4
    }
}

/// How many units of body follow the header.
pub open spec fn units(b: Seq<u8>) -> int {
    if wire::u16_at(b, 2) != 0 {
        wire::u16_at(b, 2) - 1
    } else if wire::u32_at(b, 4) < 2 {
        0
    } else {
        wire::u32_at(b, 4) - 2
    }
}

/// An extended length is past what is accepted.
pub open spec fn too_long(b: Seq<u8>) -> bool {
    wire::u16_at(b, 2) == 0 && wire::u32_at(b, 4) > MAX_REQUEST_LENGTH
}

/// The input stops short of a whole request.
pub open spec fn incomplete(b: Seq<u8>) -> bool {
    ||| b.len() < 4
    ||| b.len() < header_size(b)
    ||| !too_long(b) && b.len() < header_size(b) + 4 * units(b)
}

/// Reads one request from the front of the input that has come so far; `ended` says that
/// no more will come. An end is only in order between requests.
pub fn read_request(b: &[u8], ended: bool) -> (r: Input)
    ensures
        match r {
            Input::End => ended && b@.len() == 0,
            Input::UnexpectedEnd => ended && b@.len() > 0 && incomplete(b@),
            Input::More(n) => {
                &&& !ended && incomplete(b@)
                &&& b@.len() < n
                &&& n == (if b@.len() < 4 {
                    4
                } else if b@.len() < header_size(b@) {
                    8
                } else {
                    header_size(b@) + 4 * units(b@)
                })
                &&& header_size(b@) <= b@.len() && 4 <= b@.len() ==> !too_long(b@)
            },
            Input::TooLong(t) => 8 <= b@.len() && too_long(b@) && t.0 == wire::u32_at(b@, 4),
            Input::Request(q, n) => {
                &&& 4 <= b@.len() && header_size(b@) <= b@.len() && !too_long(b@)
                &&& n == header_size(b@) + 4 * units(b@) <= b@.len()
                &&& q.major_opcode == b@[0]
                &&& q.minor_opcode == b@[1]
                &&& q.remaining_length == units(b@)
                &&& q.body@ == b@.subrange(header_size(b@), n as int)
            },
        },
{
    assert(b.len() == b@.len());
    if b.len() < 4 {
        return short_of(b, 4, ended);
    }
    let h = header([b[0], b[1], b[2], b[3]]);
    let (units, start): (u32, usize) = match h.remaining {
        Remaining::Units(n) => (n, 4),
        Remaining::Extended => {
            if b.len() < 8 {
                return short_of(b, 8, ended);
            }
            match extended_length([b[4], b[5], b[6], b[7]]) {
                Ok(n) => (n, 8),
                Err(t) => {
                    return Input::TooLong(t);
                },
            }
        },
    };
    let end: usize = start + 4 * units as usize;
    if b.len() < end {
        return short_of(b, end, ended);
    }
    Input::Request(
        RawRequest {
            major_opcode: h.major_opcode,
            minor_opcode: h.minor_opcode,
            remaining_length: units,
            body: list::copy_range(b, start, end),
        },
        end,
    )
}

/// What input that stops short of a request holds.
fn short_of(b: &[u8], n: usize, ended: bool) -> (r: Input)
    ensures
        r == (if !ended {
            Input::More(n)
        } else if b@.len() == 0 {
            Input::End
        } else {
            Input::UnexpectedEnd
        }),
{
    assert(b.len() == b@.len());
    if !ended {
        Input::More(n)
    } else if b.len() == 0 {
        Input::End
    } else {
        Input::UnexpectedEnd
    }
}

/// More input behind a whole request does not change it.
pub proof fn law_later_input_leaves_a_request_alone(b: Seq<u8>, more: Seq<u8>)
    requires
        4 <= b.len(),
        header_size(b) <= b.len(),
        header_size(b) + 4 * units(b) <= b.len(),
    ensures
        header_size(b + more) == header_size(b),
        units(b + more) == units(b),
        too_long(b + more) == too_long(b),
        (b + more).subrange(header_size(b), header_size(b) + 4 * units(b)) == b.subrange(
            header_size(b),
            header_size(b) + 4 * units(b),
        ),
{
    assert forall|i: int| 0 <= i < b.len() implies #[trigger] (b + more)[i] == b[i] by {}
    assert(wire::u16_at(b + more, 2) == wire::u16_at(b, 2));
    if wire::u16_at(b, 2) == 0 {
        assert(wire::u32_at(b + more, 4) == wire::u32_at(b, 4));
    }
    assert((b + more).subrange(header_size(b), header_size(b) + 4 * units(b)) =~= b.subrange(
        header_size(b),
        header_size(b) + 4 * units(b),
    ));
}

/// `GetAtomName` as a client writes it.
pub proof fn law_get_atom_name_is_read(atom: u32, minor: u8)
    ensures
        ({
            let b = wire::le32(atom);
            request(17, minor, b) == Some(Request::<Seq<u8>, Seq<u32>, Seq<Rectangle>>::Ask(Ask::GetAtomName { atom }))
        }),
{
    reveal(request);
    let b = wire::le32(atom);
    assert(b.subrange(0, 4) =~= wire::le32(atom));
    wire::lemma_reads_32(b, 0, atom);
}

/// `DeleteProperty` as a client writes it.
pub proof fn law_delete_property_is_read(window: u32, property: u32, minor: u8)
    ensures
        ({
            let b = wire::le32(window) + wire::le32(property);
            request(19, minor, b) == Some(Request::<Seq<u8>, Seq<u32>, Seq<Rectangle>>::Change(Change::DeleteProperty { window, property }))
        }),
{
    reveal(request);
    let b = wire::le32(window) + wire::le32(property);
    assert(b.subrange(0, 4) =~= wire::le32(window));
    wire::lemma_reads_32(b, 0, window);
    assert(b.subrange(4, 8) =~= wire::le32(property));
    wire::lemma_reads_32(b, 4, property);
}

/// `GetProperty` as a client writes it.
pub proof fn law_get_property_is_read(
    window: u32,
    property: u32,
    type_: u32,
    long_offset: u32,
    long_length: u32,
    delete: bool,
)
    ensures
        ({
            let b = wire::le32(window) + wire::le32(property) + wire::le32(type_) + wire::le32(long_offset) + wire::le32(long_length);
            request(20, (if delete { 1u8 } else { 0u8 }), b) == Some(Request::<Seq<u8>, Seq<u32>, Seq<Rectangle>>::Change(Change::GetProperty { delete, window, property, type_, long_offset, long_length }))
        }),
{
    reveal(request);
    let b = wire::le32(window) + wire::le32(property) + wire::le32(type_) + wire::le32(long_offset) + wire::le32(long_length);
    assert(b.subrange(0, 4) =~= wire::le32(window));
    wire::lemma_reads_32(b, 0, window);
    assert(b.subrange(4, 8) =~= wire::le32(property));
    wire::lemma_reads_32(b, 4, property);
    assert(b.subrange(8, 12) =~= wire::le32(type_));
    wire::lemma_reads_32(b, 8, type_);
    assert(b.subrange(12, 16) =~= wire::le32(long_offset));
    wire::lemma_reads_32(b, 12, long_offset);
    assert(b.subrange(16, 20) =~= wire::le32(long_length));
    wire::lemma_reads_32(b, 16, long_length);
}

/// `ListProperties` as a client writes it.
pub proof fn law_list_properties_is_read(window: u32, minor: u8)
    ensures
        ({
            let b = wire::le32(window);
            request(21, minor, b) == Some(Request::<Seq<u8>, Seq<u32>, Seq<Rectangle>>::Change(Change::ListProperties { window }))
        }),
{
    reveal(request);
    let b = wire::le32(window);
    assert(b.subrange(0, 4) =~= wire::le32(window));
    wire::lemma_reads_32(b, 0, window);
}

/// `SetSelectionOwner` as a client writes it.
pub proof fn law_set_selection_owner_is_read(owner: u32, selection: u32, time: u32, minor: u8)
    ensures
        ({
            let b = wire::le32(owner) + wire::le32(selection) + wire::le32(time);
            request(22, minor, b) == Some(Request::<Seq<u8>, Seq<u32>, Seq<Rectangle>>::Change(Change::SetSelectionOwner { owner, selection, time }))
        }),
{
    reveal(request);
    let b = wire::le32(owner) + wire::le32(selection) + wire::le32(time);
    assert(b.subrange(0, 4) =~= wire::le32(owner));
    wire::lemma_reads_32(b, 0, owner);
    assert(b.subrange(4, 8) =~= wire::le32(selection));
    wire::lemma_reads_32(b, 4, selection);
    assert(b.subrange(8, 12) =~= wire::le32(time));
    wire::lemma_reads_32(b, 8, time);
}

/// `GetSelectionOwner` as a client writes it.
pub proof fn law_get_selection_owner_is_read(selection: u32, minor: u8)
    ensures
        ({
            let b = wire::le32(selection);
            request(23, minor, b) == Some(Request::<Seq<u8>, Seq<u32>, Seq<Rectangle>>::Ask(Ask::GetSelectionOwner { selection }))
        }),
{
    reveal(request);
    let b = wire::le32(selection);
    assert(b.subrange(0, 4) =~= wire::le32(selection));
    wire::lemma_reads_32(b, 0, selection);
}

/// `ConvertSelection` as a client writes it.
pub proof fn law_convert_selection_is_read(
    requestor: u32,
    selection: u32,
    target: u32,
    property: u32,
    time: u32,
    minor: u8,
)
    ensures
        ({
            let b = wire::le32(requestor) + wire::le32(selection) + wire::le32(target) + wire::le32(property) + wire::le32(time);
            request(24, minor, b) == Some(Request::<Seq<u8>, Seq<u32>, Seq<Rectangle>>::Change(Change::ConvertSelection { requestor, selection, target, property, time }))
        }),
{
    reveal(request);
    let b = wire::le32(requestor) + wire::le32(selection) + wire::le32(target) + wire::le32(property) + wire::le32(time);
    assert(b.subrange(0, 4) =~= wire::le32(requestor));
    wire::lemma_reads_32(b, 0, requestor);
    assert(b.subrange(4, 8) =~= wire::le32(selection));
    wire::lemma_reads_32(b, 4, selection);
    assert(b.subrange(8, 12) =~= wire::le32(target));
    wire::lemma_reads_32(b, 8, target);
    assert(b.subrange(12, 16) =~= wire::le32(property));
    wire::lemma_reads_32(b, 12, property);
    assert(b.subrange(16, 20) =~= wire::le32(time));
    wire::lemma_reads_32(b, 16, time);
}

/// `TranslateCoordinates` as a client writes it.
pub proof fn law_translate_coordinates_is_read(source: u32, destination: u32, x: i16, y: i16, minor: u8)
    ensures
        ({
            let b = wire::le32(source) + wire::le32(destination) + wire::le_i16(x) + wire::le_i16(y);
            request(40, minor, b) == Some(Request::<Seq<u8>, Seq<u32>, Seq<Rectangle>>::Ask(Ask::TranslateCoordinates { x, y }))
        }),
{
    reveal(request);
    let b = wire::le32(source) + wire::le32(destination) + wire::le_i16(x) + wire::le_i16(y);
    assert(b.subrange(8, 10) =~= wire::le_i16(x));
    wire::lemma_reads_i16(b, 8, x);
    assert(b.subrange(10, 12) =~= wire::le_i16(y));
    wire::lemma_reads_i16(b, 10, y);
}

/// `GetKeyboardMapping` as a client writes it.
pub proof fn law_get_keyboard_mapping_is_read(first_keycode: u8, count: u8, minor: u8)
    ensures
        ({
            let b = seq![first_keycode] + seq![count] + wire::zeros(2);
            request(101, minor, b) == Some(Request::<Seq<u8>, Seq<u32>, Seq<Rectangle>>::Ask(Ask::GetKeyboardMapping { first_keycode, count }))
        }),
{
    reveal(request);
    let b = seq![first_keycode] + seq![count] + wire::zeros(2);

}

/// `AllocColor` as a client writes it.
pub proof fn law_alloc_color_is_read(colormap: u32, red: u16, green: u16, blue: u16, minor: u8)
    ensures
        ({
            let b = wire::le32(colormap) + wire::le16(red) + wire::le16(green) + wire::le16(blue) + wire::zeros(2);
            request(84, minor, b) == Some(Request::<Seq<u8>, Seq<u32>, Seq<Rectangle>>::Ask(Ask::AllocColor { red, green, blue }))
        }),
{
    reveal(request);
    let b = wire::le32(colormap) + wire::le16(red) + wire::le16(green) + wire::le16(blue) + wire::zeros(2);
    assert(b.subrange(4, 6) =~= wire::le16(red));
    wire::lemma_reads_16(b, 4, red);
    assert(b.subrange(6, 8) =~= wire::le16(green));
    wire::lemma_reads_16(b, 6, green);
    assert(b.subrange(8, 10) =~= wire::le16(blue));
    wire::lemma_reads_16(b, 8, blue);
}

/// `GetImage` as a client writes it.
pub proof fn law_get_image_is_read(drawable: u32, x: i16, y: i16, width: u16, height: u16, plane_mask: u32, minor: u8)
    ensures
        ({
            let b = wire::le32(drawable) + wire::le_i16(x) + wire::le_i16(y) + wire::le16(width) + wire::le16(height) + wire::le32(plane_mask);
            request(73, minor, b) == Some(Request::<Seq<u8>, Seq<u32>, Seq<Rectangle>>::Change(Change::GetImage { x, y, width, height }))
        }),
{
    reveal(request);
    let b = wire::le32(drawable) + wire::le_i16(x) + wire::le_i16(y) + wire::le16(width) + wire::le16(height) + wire::le32(plane_mask);
    assert(b.subrange(4, 6) =~= wire::le_i16(x));
    wire::lemma_reads_i16(b, 4, x);
    assert(b.subrange(6, 8) =~= wire::le_i16(y));
    wire::lemma_reads_i16(b, 6, y);
    assert(b.subrange(8, 10) =~= wire::le16(width));
    wire::lemma_reads_16(b, 8, width);
    assert(b.subrange(10, 12) =~= wire::le16(height));
    wire::lemma_reads_16(b, 10, height);
}

/// `QueryBestSize` as a client writes it.
pub proof fn law_query_best_size_is_read(drawable: u32, width: u16, height: u16, minor: u8)
    ensures
        ({
            let b = wire::le32(drawable) + wire::le16(width) + wire::le16(height);
            request(97, minor, b) == Some(Request::<Seq<u8>, Seq<u32>, Seq<Rectangle>>::Ask(Ask::QueryBestSize { width, height }))
        }),
{
    reveal(request);
    let b = wire::le32(drawable) + wire::le16(width) + wire::le16(height);
    assert(b.subrange(4, 6) =~= wire::le16(width));
    wire::lemma_reads_16(b, 4, width);
    assert(b.subrange(6, 8) =~= wire::le16(height));
    wire::lemma_reads_16(b, 6, height);
}

/// `DestroyWindow` as a client writes it.
pub proof fn law_destroy_window_is_read(window: u32, minor: u8)
    ensures
        ({
            let b = wire::le32(window);
            request(4, minor, b) == Some(Request::<Seq<u8>, Seq<u32>, Seq<Rectangle>>::Change(Change::DestroyWindow { window }))
        }),
{
    reveal(request);
    let b = wire::le32(window);
    assert(b.subrange(0, 4) =~= wire::le32(window));
    wire::lemma_reads_32(b, 0, window);
}

/// `InternAtom` as a client writes it, whatever pads the name.
pub proof fn law_intern_atom_is_read(name: Seq<u8>, padding: Seq<u8>, only_if_exists: bool)
    requires
        name.len() <= 0xffff,
    ensures
        ({
            let b = wire::le16(name.len() as u16) + wire::zeros(2) + name + padding;
            request(16, (if only_if_exists { 1u8 } else { 0u8 }), b) == Some(Request::<Seq<u8>, Seq<u32>, Seq<Rectangle>>::InternAtom { only_if_exists, name })
        }),
{
    reveal(request);
    let b = wire::le16(name.len() as u16) + wire::zeros(2) + name + padding;
    assert(b.subrange(0, 2) =~= wire::le16(name.len() as u16));
    wire::lemma_reads_16(b, 0, name.len() as u16);
    assert(b.subrange(4, 4 + name.len() as int) =~= name);
}

/// `QueryExtension` as a client writes it, whatever pads the name.
pub proof fn law_query_extension_is_read(name: Seq<u8>, padding: Seq<u8>, minor: u8)
    requires
        name.len() <= 0xffff,
    ensures
        ({
            let b = wire::le16(name.len() as u16) + wire::zeros(2) + name + padding;
            request(98, minor, b) == Some(Request::<Seq<u8>, Seq<u32>, Seq<Rectangle>>::QueryExtension { name })
        }),
{
    reveal(request);
    let b = wire::le16(name.len() as u16) + wire::zeros(2) + name + padding;
    assert(b.subrange(0, 2) =~= wire::le16(name.len() as u16));
    wire::lemma_reads_16(b, 0, name.len() as u16);
    assert(b.subrange(4, 4 + name.len() as int) =~= name);
}

/// `ChangeProperty` as a client writes it, whatever pads the data: as many items as it
/// says, of as many bits each.
pub proof fn law_change_property_is_read(
    window: u32,
    property: u32,
    type_: u32,
    format: u8,
    count: u32,
    data: Seq<u8>,
    padding: Seq<u8>,
    mode: u8,
)
    requires
        format == 8 || format == 16 || format == 32,
        8 * data.len() == count * format,
        8 * data.len() <= u32::MAX,
    ensures
        ({
            let b = wire::le32(window) + wire::le32(property) + wire::le32(type_) + seq![format] + wire::zeros(3) + wire::le32(count) + data + padding;
            request(18, mode, b) == Some(Request::<Seq<u8>, Seq<u32>, Seq<Rectangle>>::ChangeProperty { mode, window, property, type_, format, data })
        }),
{
    let h = wire::le32(window) + wire::le32(property) + wire::le32(type_) + seq![format] + wire::zeros(3) + wire::le32(count);
    lemma_property_head(window, property, type_, format, count);
    let b = wire::le32(window) + wire::le32(property) + wire::le32(type_) + seq![format] + wire::zeros(3) + wire::le32(count)
        + data + padding;
    assert(b.subrange(20, 20 + data.len() as int) =~= data);
    assert(b.take(20) =~= h);
    lemma_property_read(b, window, property, type_, format, count, data, mode);
}

proof fn lemma_property_head(window: u32, property: u32, type_: u32, format: u8, count: u32)
    ensures
        ({
            let h = wire::le32(window) + wire::le32(property) + wire::le32(type_) + seq![format] + wire::zeros(3)
                + wire::le32(count);
            &&& h.len() == 20
            &&& wire::u32_at(h, 0) == window && wire::u32_at(h, 4) == property && wire::u32_at(h, 8) == type_
            &&& h[12] == format && wire::u32_at(h, 16) == count
        }),
{
    let h = wire::le32(window) + wire::le32(property) + wire::le32(type_) + seq![format] + wire::zeros(3) + wire::le32(count);
    assert(h.subrange(0, 4) =~= wire::le32(window));
    wire::lemma_reads_32(h, 0, window);
    assert(h.subrange(4, 8) =~= wire::le32(property));
    wire::lemma_reads_32(h, 4, property);
    assert(h.subrange(8, 12) =~= wire::le32(type_));
    wire::lemma_reads_32(h, 8, type_);
    assert(h.subrange(16, 20) =~= wire::le32(count));
    wire::lemma_reads_32(h, 16, count);
}

proof fn lemma_property_read(
    b: Seq<u8>,
    window: u32,
    property: u32,
    type_: u32,
    format: u8,
    count: u32,
    data: Seq<u8>,
    mode: u8,
)
    requires
        b.len() >= 20 + data.len(),
        wire::u32_at(b.take(20), 0) == window,
        wire::u32_at(b.take(20), 4) == property,
        wire::u32_at(b.take(20), 8) == type_,
        b.take(20)[12] == format,
        wire::u32_at(b.take(20), 16) == count,
        b.subrange(20, 20 + data.len() as int) == data,
        8 * data.len() == count * format,
        8 * data.len() <= u32::MAX,
    ensures
        request(18, mode, b) == Some(
            Request::<Seq<u8>, Seq<u32>, Seq<Rectangle>>::ChangeProperty { mode, window, property, type_, format, data },
        ),
{
    reveal(request);
    assert(data_size(count, format) == Some(data.len() as int));
}

/// `SendEvent` as a client writes it.
pub proof fn law_send_event_is_read(destination: u32, event_mask: u32, event: Seq<u8>, minor: u8)
    requires
        event.len() == 32,
    ensures
        ({
            let b = wire::le32(destination) + wire::le32(event_mask) + event;
            request(25, minor, b) == Some(Request::<Seq<u8>, Seq<u32>, Seq<Rectangle>>::SendEvent { event })
        }),
{
    reveal(request);
    let b = wire::le32(destination) + wire::le32(event_mask) + event;

    assert(b.subrange(8, 40) =~= event);
}

/// `QueryColors` as a client writes it.
pub proof fn law_query_colors_is_read(colormap: u32, minor: u8, pixels: Seq<u32>)
    ensures
        ({
            let b = wire::le32(colormap) + wire::le32s(pixels);
            request(91, minor, b) == Some(Request::<Seq<u8>, Seq<u32>, Seq<Rectangle>>::QueryColors { pixels })
        }),
{
    reveal(request);
    let b = wire::le32(colormap) + wire::le32s(pixels);

    wire::law_lists_have_each_number_in_its_place(pixels, Seq::empty(), 0);
    assert forall|i: int| 0 <= i < pixels.len() implies wire::u32_at(b, 4 + 4 * i) == #[trigger] pixels[i] by {
        wire::law_lists_have_each_number_in_its_place(pixels, Seq::empty(), i);
        let l = wire::le32s(pixels);
        assert(b[4 + 4 * i] == l[4 * i] && b[4 + 4 * i + 1] == l[4 * i + 1] && b[4 + 4 * i + 2] == l[4 * i + 2] && b[4 + 4 * i
            + 3] == l[4 * i + 3]);
    }
    assert(words_from(b, 4)->0 =~= pixels);
}

/// `ShmAttach` as a client writes it.
pub proof fn law_shm_attach_is_read(shmseg: u32, shmid: u32, read_only: u8)
    ensures
        ({
            let b = wire::le32(shmseg) + wire::le32(shmid) + seq![read_only] + wire::zeros(3);
            request(SHM_OPCODE, 1, b) == Some(Request::<Seq<u8>, Seq<u32>, Seq<Rectangle>>::Change(Change::ShmAttach { shmseg, shmid }))
        }),
{
    reveal(request);
    let b = wire::le32(shmseg) + wire::le32(shmid) + seq![read_only] + wire::zeros(3);
    assert(b.subrange(0, 4) =~= wire::le32(shmseg));
    wire::lemma_reads_32(b, 0, shmseg);
    assert(b.subrange(4, 8) =~= wire::le32(shmid));
    wire::lemma_reads_32(b, 4, shmid);
}

/// `ShmDetach` as a client writes it.
pub proof fn law_shm_detach_is_read(shmseg: u32)
    ensures
        ({
            let b = wire::le32(shmseg);
            request(SHM_OPCODE, 2, b) == Some(Request::<Seq<u8>, Seq<u32>, Seq<Rectangle>>::Change(Change::ShmDetach { shmseg }))
        }),
{
    reveal(request);
    let b = wire::le32(shmseg);
    assert(b.subrange(0, 4) =~= wire::le32(shmseg));
    wire::lemma_reads_32(b, 0, shmseg);
}

/// `ShmGetImage` as a client writes it.
pub proof fn law_shm_get_image_is_read(
    drawable: u32,
    x: i16,
    y: i16,
    width: u16,
    height: u16,
    plane_mask: u32,
    format: u8,
    shmseg: u32,
    offset: u32,
)
    ensures
        ({
            let b = wire::le32(drawable) + wire::le_i16(x) + wire::le_i16(y) + wire::le16(width) + wire::le16(height) + wire::le32(plane_mask) + seq![format] + wire::zeros(3) + wire::le32(shmseg) + wire::le32(offset);
            request(SHM_OPCODE, 4, b) == Some(Request::<Seq<u8>, Seq<u32>, Seq<Rectangle>>::Change(Change::ShmGetImage { x, y, width, height, shmseg, offset }))
        }),
{
    reveal(request);
    let b = wire::le32(drawable) + wire::le_i16(x) + wire::le_i16(y) + wire::le16(width) + wire::le16(height) + wire::le32(plane_mask) + seq![format] + wire::zeros(3) + wire::le32(shmseg) + wire::le32(offset);
    assert(b.subrange(4, 6) =~= wire::le_i16(x));
    wire::lemma_reads_i16(b, 4, x);
    assert(b.subrange(6, 8) =~= wire::le_i16(y));
    wire::lemma_reads_i16(b, 6, y);
    assert(b.subrange(8, 10) =~= wire::le16(width));
    wire::lemma_reads_16(b, 8, width);
    assert(b.subrange(10, 12) =~= wire::le16(height));
    wire::lemma_reads_16(b, 10, height);
    assert(b.subrange(20, 24) =~= wire::le32(shmseg));
    wire::lemma_reads_32(b, 20, shmseg);
    assert(b.subrange(24, 28) =~= wire::le32(offset));
    wire::lemma_reads_32(b, 24, offset);
}

/// `FakeInput` as a client writes it.
pub proof fn law_fake_input_is_read(kind: u8, detail: u8, time: u32, root: u32, x: i16, y: i16, device: u8)
    ensures
        ({
            let b = seq![kind] + seq![detail] + wire::zeros(2) + wire::le32(time) + wire::le32(root) + wire::zeros(8) + wire::le_i16(x) + wire::le_i16(y) + wire::zeros(7) + seq![device];
            request(XTEST_OPCODE, 2, b) == Some(Request::<Seq<u8>, Seq<u32>, Seq<Rectangle>>::Change(Change::FakeInput { kind, detail, x, y }))
        }),
{
    reveal(request);
    let b = seq![kind] + seq![detail] + wire::zeros(2) + wire::le32(time) + wire::le32(root) + wire::zeros(8) + wire::le_i16(x) + wire::le_i16(y) + wire::zeros(7) + seq![device];
    assert(b.subrange(20, 22) =~= wire::le_i16(x));
    wire::lemma_reads_i16(b, 20, x);
    assert(b.subrange(22, 24) =~= wire::le_i16(y));
    wire::lemma_reads_i16(b, 22, y);
}

/// RandR's `SelectInput` as a client writes it.
pub proof fn law_randr_select_input_is_read(window: u32, enable: u16)
    ensures
        ({
            let b = wire::le32(window) + wire::le16(enable) + wire::zeros(2);
            request(RANDR_OPCODE, 4, b) == Some(Request::<Seq<u8>, Seq<u32>, Seq<Rectangle>>::Change(Change::SelectRandr { window, enable }))
        }),
{
    reveal(request);
    let b = wire::le32(window) + wire::le16(enable) + wire::zeros(2);
    assert(b.subrange(0, 4) =~= wire::le32(window));
    wire::lemma_reads_32(b, 0, window);
    assert(b.subrange(4, 6) =~= wire::le16(enable));
    wire::lemma_reads_16(b, 4, enable);
}

/// `SetScreenSize` as a client writes it.
pub proof fn law_set_screen_size_is_read(window: u32, width: u16, height: u16, mm_width: u32, mm_height: u32)
    ensures
        ({
            let b = wire::le32(window) + wire::le16(width) + wire::le16(height) + wire::le32(mm_width) + wire::le32(mm_height);
            request(RANDR_OPCODE, 7, b) == Some(Request::<Seq<u8>, Seq<u32>, Seq<Rectangle>>::Change(Change::SetScreenSize { width, height }))
        }),
{
    reveal(request);
    let b = wire::le32(window) + wire::le16(width) + wire::le16(height) + wire::le32(mm_width) + wire::le32(mm_height);
    assert(b.subrange(4, 6) =~= wire::le16(width));
    wire::lemma_reads_16(b, 4, width);
    assert(b.subrange(6, 8) =~= wire::le16(height));
    wire::lemma_reads_16(b, 6, height);
}

/// `GetOutputInfo` as a client writes it.
pub proof fn law_get_output_info_is_read(output: u32, config_timestamp: u32)
    ensures
        ({
            let b = wire::le32(output) + wire::le32(config_timestamp);
            request(RANDR_OPCODE, 9, b) == Some(Request::<Seq<u8>, Seq<u32>, Seq<Rectangle>>::Ask(Ask::RandrGetOutputInfo { output }))
        }),
{
    reveal(request);
    let b = wire::le32(output) + wire::le32(config_timestamp);
    assert(b.subrange(0, 4) =~= wire::le32(output));
    wire::lemma_reads_32(b, 0, output);
}

/// `DestroyMode` as a client writes it.
pub proof fn law_destroy_mode_is_read(mode: u32)
    ensures
        ({
            let b = wire::le32(mode);
            request(RANDR_OPCODE, 17, b) == Some(Request::<Seq<u8>, Seq<u32>, Seq<Rectangle>>::Change(Change::DestroyMode { mode }))
        }),
{
    reveal(request);
    let b = wire::le32(mode);
    assert(b.subrange(0, 4) =~= wire::le32(mode));
    wire::lemma_reads_32(b, 0, mode);
}

/// `AddOutputMode` as a client writes it.
pub proof fn law_add_output_mode_is_read(output: u32, mode: u32)
    ensures
        ({
            let b = wire::le32(output) + wire::le32(mode);
            request(RANDR_OPCODE, 18, b) == Some(Request::<Seq<u8>, Seq<u32>, Seq<Rectangle>>::Change(Change::AddOutputMode { output, mode }))
        }),
{
    reveal(request);
    let b = wire::le32(output) + wire::le32(mode);
    assert(b.subrange(0, 4) =~= wire::le32(output));
    wire::lemma_reads_32(b, 0, output);
    assert(b.subrange(4, 8) =~= wire::le32(mode));
    wire::lemma_reads_32(b, 4, mode);
}

/// `DeleteOutputMode` as a client writes it.
pub proof fn law_delete_output_mode_is_read(output: u32, mode: u32)
    ensures
        ({
            let b = wire::le32(output) + wire::le32(mode);
            request(RANDR_OPCODE, 19, b) == Some(Request::<Seq<u8>, Seq<u32>, Seq<Rectangle>>::Change(Change::DeleteOutputMode { output, mode }))
        }),
{
    reveal(request);
    let b = wire::le32(output) + wire::le32(mode);
    assert(b.subrange(0, 4) =~= wire::le32(output));
    wire::lemma_reads_32(b, 0, output);
    assert(b.subrange(4, 8) =~= wire::le32(mode));
    wire::lemma_reads_32(b, 4, mode);
}

/// `GetCrtcInfo` as a client writes it.
pub proof fn law_get_crtc_info_is_read(crtc: u32, config_timestamp: u32)
    ensures
        ({
            let b = wire::le32(crtc) + wire::le32(config_timestamp);
            request(RANDR_OPCODE, 20, b) == Some(Request::<Seq<u8>, Seq<u32>, Seq<Rectangle>>::Ask(Ask::RandrGetCrtcInfo { crtc }))
        }),
{
    reveal(request);
    let b = wire::le32(crtc) + wire::le32(config_timestamp);
    assert(b.subrange(0, 4) =~= wire::le32(crtc));
    wire::lemma_reads_32(b, 0, crtc);
}

/// `SetCrtcConfig` as a client writes it, whatever outputs it lists.
pub proof fn law_set_crtc_config_is_read(
    crtc: u32,
    timestamp: u32,
    config_timestamp: u32,
    x: i16,
    y: i16,
    mode: u32,
    rotation: u16,
    outputs: Seq<u8>,
)
    requires
        outputs.len() % 4 == 0,
    ensures
        ({
            let b = wire::le32(crtc) + wire::le32(timestamp) + wire::le32(config_timestamp) + wire::le_i16(x) + wire::le_i16(y) + wire::le32(mode) + wire::le16(rotation) + wire::zeros(2) + outputs;
            request(RANDR_OPCODE, 21, b) == Some(Request::<Seq<u8>, Seq<u32>, Seq<Rectangle>>::Change(Change::SetCrtcConfig { crtc, x, y, mode }))
        }),
{
    reveal(request);
    let b = wire::le32(crtc) + wire::le32(timestamp) + wire::le32(config_timestamp) + wire::le_i16(x) + wire::le_i16(y) + wire::le32(mode) + wire::le16(rotation) + wire::zeros(2) + outputs;
    assert(b.subrange(0, 4) =~= wire::le32(crtc));
    wire::lemma_reads_32(b, 0, crtc);
    assert(b.subrange(12, 14) =~= wire::le_i16(x));
    wire::lemma_reads_i16(b, 12, x);
    assert(b.subrange(14, 16) =~= wire::le_i16(y));
    wire::lemma_reads_i16(b, 14, y);
    assert(b.subrange(16, 20) =~= wire::le32(mode));
    wire::lemma_reads_32(b, 16, mode);
}

/// `DamageCreate` as a client writes it.
pub proof fn law_damage_create_is_read(damage: u32, drawable: u32, level: u8)
    ensures
        ({
            let b = wire::le32(damage) + wire::le32(drawable) + seq![level] + wire::zeros(3);
            request(DAMAGE_OPCODE, 1, b) == Some(Request::<Seq<u8>, Seq<u32>, Seq<Rectangle>>::Change(Change::DamageCreate { damage, drawable, level }))
        }),
{
    reveal(request);
    let b = wire::le32(damage) + wire::le32(drawable) + seq![level] + wire::zeros(3);
    assert(b.subrange(0, 4) =~= wire::le32(damage));
    wire::lemma_reads_32(b, 0, damage);
    assert(b.subrange(4, 8) =~= wire::le32(drawable));
    wire::lemma_reads_32(b, 4, drawable);
}

/// `DamageDestroy` as a client writes it.
pub proof fn law_damage_destroy_is_read(damage: u32)
    ensures
        ({
            let b = wire::le32(damage);
            request(DAMAGE_OPCODE, 2, b) == Some(Request::<Seq<u8>, Seq<u32>, Seq<Rectangle>>::Change(Change::DamageDestroy { damage }))
        }),
{
    reveal(request);
    let b = wire::le32(damage);
    assert(b.subrange(0, 4) =~= wire::le32(damage));
    wire::lemma_reads_32(b, 0, damage);
}

/// `DamageSubtract` as a client writes it.
pub proof fn law_damage_subtract_is_read(damage: u32, repair: u32, parts: u32)
    ensures
        ({
            let b = wire::le32(damage) + wire::le32(repair) + wire::le32(parts);
            request(DAMAGE_OPCODE, 3, b) == Some(Request::<Seq<u8>, Seq<u32>, Seq<Rectangle>>::Change(Change::DamageSubtract { damage, parts }))
        }),
{
    reveal(request);
    let b = wire::le32(damage) + wire::le32(repair) + wire::le32(parts);
    assert(b.subrange(0, 4) =~= wire::le32(damage));
    wire::lemma_reads_32(b, 0, damage);
    assert(b.subrange(8, 12) =~= wire::le32(parts));
    wire::lemma_reads_32(b, 8, parts);
}

/// XFixes' `SelectSelectionInput` as a client writes it.
pub proof fn law_select_selection_input_is_read(window: u32, selection: u32, mask: u32)
    ensures
        ({
            let b = wire::le32(window) + wire::le32(selection) + wire::le32(mask);
            request(XFIXES_OPCODE, 2, b) == Some(Request::<Seq<u8>, Seq<u32>, Seq<Rectangle>>::Change(Change::SelectSelectionInput { window, selection, mask }))
        }),
{
    reveal(request);
    let b = wire::le32(window) + wire::le32(selection) + wire::le32(mask);
    assert(b.subrange(0, 4) =~= wire::le32(window));
    wire::lemma_reads_32(b, 0, window);
    assert(b.subrange(4, 8) =~= wire::le32(selection));
    wire::lemma_reads_32(b, 4, selection);
    assert(b.subrange(8, 12) =~= wire::le32(mask));
    wire::lemma_reads_32(b, 8, mask);
}

/// XFixes' `SelectCursorInput` as a client writes it.
pub proof fn law_select_cursor_input_is_read(window: u32, mask: u32)
    ensures
        ({
            let b = wire::le32(window) + wire::le32(mask);
            request(XFIXES_OPCODE, 3, b) == Some(Request::<Seq<u8>, Seq<u32>, Seq<Rectangle>>::Change(Change::SelectCursorInput { window, mask }))
        }),
{
    reveal(request);
    let b = wire::le32(window) + wire::le32(mask);
    assert(b.subrange(0, 4) =~= wire::le32(window));
    wire::lemma_reads_32(b, 0, window);
    assert(b.subrange(4, 8) =~= wire::le32(mask));
    wire::lemma_reads_32(b, 4, mask);
}

/// `DestroyRegion` as a client writes it.
pub proof fn law_destroy_region_is_read(region: u32)
    ensures
        ({
            let b = wire::le32(region);
            request(XFIXES_OPCODE, 10, b) == Some(Request::<Seq<u8>, Seq<u32>, Seq<Rectangle>>::Change(Change::DestroyRegion { region }))
        }),
{
    reveal(request);
    let b = wire::le32(region);
    assert(b.subrange(0, 4) =~= wire::le32(region));
    wire::lemma_reads_32(b, 0, region);
}

/// `CopyRegion` as a client writes it.
pub proof fn law_copy_region_is_read(source: u32, destination: u32)
    ensures
        ({
            let b = wire::le32(source) + wire::le32(destination);
            request(XFIXES_OPCODE, 12, b) == Some(Request::<Seq<u8>, Seq<u32>, Seq<Rectangle>>::Change(Change::CopyRegion { source, destination }))
        }),
{
    reveal(request);
    let b = wire::le32(source) + wire::le32(destination);
    assert(b.subrange(0, 4) =~= wire::le32(source));
    wire::lemma_reads_32(b, 0, source);
    assert(b.subrange(4, 8) =~= wire::le32(destination));
    wire::lemma_reads_32(b, 4, destination);
}

/// `RegionExtents` as a client writes it.
pub proof fn law_region_extents_is_read(source: u32, destination: u32)
    ensures
        ({
            let b = wire::le32(source) + wire::le32(destination);
            request(XFIXES_OPCODE, 18, b) == Some(Request::<Seq<u8>, Seq<u32>, Seq<Rectangle>>::Change(Change::RegionExtents { source, destination }))
        }),
{
    reveal(request);
    let b = wire::le32(source) + wire::le32(destination);
    assert(b.subrange(0, 4) =~= wire::le32(source));
    wire::lemma_reads_32(b, 0, source);
    assert(b.subrange(4, 8) =~= wire::le32(destination));
    wire::lemma_reads_32(b, 4, destination);
}

/// `FetchRegion` as a client writes it.
pub proof fn law_fetch_region_is_read(region: u32)
    ensures
        ({
            let b = wire::le32(region);
            request(XFIXES_OPCODE, 19, b) == Some(Request::<Seq<u8>, Seq<u32>, Seq<Rectangle>>::Ask(Ask::XfixesFetchRegion { region }))
        }),
{
    reveal(request);
    let b = wire::le32(region);
    assert(b.subrange(0, 4) =~= wire::le32(region));
    wire::lemma_reads_32(b, 0, region);
}

/// `CreateMode` as a client writes it: the mode has its fields where RandR has them, and
/// its name follows.
pub proof fn law_create_mode_is_read(window: u32, info: ModeInfo, name: Seq<u8>)
    ensures
        request(RANDR_OPCODE, 16, wire::le32(window) + reply::mode_bytes(info) + name) == Some(
            Request::<Seq<u8>, Seq<u32>, Seq<Rectangle>>::CreateMode { info, name },
        ),
{
    let b = wire::le32(window) + reply::mode_bytes(info) + name;
    let m = reply::mode_bytes(info);
    assert(mode_at(m, 0) == info && m.len() == 32) by {
        reply::law_mode_fields(info);
    }
    lemma_mode_inside(wire::le32(window), m, name);
    assert(b.skip(36) =~= name);
    lemma_mode_read(b);
}

proof fn lemma_mode_read(b: Seq<u8>)
    requires
        b.len() >= 36,
    ensures
        request(RANDR_OPCODE, 16, b) == Some(
            Request::<Seq<u8>, Seq<u32>, Seq<Rectangle>>::CreateMode { info: mode_at(b, 4), name: b.skip(36) },
        ),
{
    reveal(request);
}

proof fn lemma_mode_inside(a: Seq<u8>, m: Seq<u8>, name: Seq<u8>)
    requires
        a.len() == 4,
        m.len() == 32,
    ensures
        mode_at(a + m + name, 4) == mode_at(m, 0),
{
    let b = a + m + name;
    assert(forall|i: int| 0 <= i < 32 ==> b[4 + i] == #[trigger] m[i]);
    assert(forall|i: int| 0 <= i <= 28 ==> wire::u32_at(b, 4 + i) == #[trigger] wire::u32_at(m, i)) by {
        assert forall|i: int| 0 <= i <= 28 implies wire::u32_at(b, 4 + i) == #[trigger] wire::u32_at(m, i) by {
            assert(b[4 + i] == m[i] && b[4 + i + 1] == m[i + 1] && b[4 + i + 2] == m[i + 2] && b[4 + i + 3] == m[i + 3]);
        }
    }
    assert forall|i: int| 0 <= i <= 28 implies wire::u16_at(b, 4 + i) == #[trigger] wire::u16_at(m, i) by {
        assert(b[4 + i] == m[i] && b[4 + i + 1] == m[i + 1]);
    }
    assert(wire::u32_at(b, 4) == wire::u32_at(m, 0) && wire::u32_at(b, 12) == wire::u32_at(m, 8) && wire::u32_at(b, 32)
        == wire::u32_at(m, 28));
    assert(wire::u16_at(b, 8) == wire::u16_at(m, 4) && wire::u16_at(b, 10) == wire::u16_at(m, 6) && wire::u16_at(b, 16)
        == wire::u16_at(m, 12) && wire::u16_at(b, 18) == wire::u16_at(m, 14) && wire::u16_at(b, 20) == wire::u16_at(m, 16)
        && wire::u16_at(b, 22) == wire::u16_at(m, 18) && wire::u16_at(b, 24) == wire::u16_at(m, 20) && wire::u16_at(b, 26)
        == wire::u16_at(m, 22) && wire::u16_at(b, 28) == wire::u16_at(m, 24) && wire::u16_at(b, 30) == wire::u16_at(m, 26));
}

/// A region is read as a client writes it: its id, and its rectangles one behind the
/// other.
pub proof fn law_set_region_is_read(region: u32, rectangles: Seq<Rectangle>)
    ensures
        request(XFIXES_OPCODE, 5, wire::le32(region) + wire::le_rects(rectangles)) == Some(
            Request::<Seq<u8>, Seq<u32>, Seq<Rectangle>>::SetRegion { region, rectangles },
        ),
        request(XFIXES_OPCODE, 11, wire::le32(region) + wire::le_rects(rectangles)) == Some(
            Request::<Seq<u8>, Seq<u32>, Seq<Rectangle>>::SetRegion { region, rectangles },
        ),
{
    let b = wire::le32(region) + wire::le_rects(rectangles);
    assert(b.subrange(0, 4) =~= wire::le32(region));
    wire::lemma_reads_32(b, 0, region);
    lemma_rects_inside(wire::le32(region), rectangles);
    assert(b.len() == 4 + wire::le_rects(rectangles).len());
    lemma_region_read(b);
}

proof fn lemma_region_read(b: Seq<u8>)
    requires
        b.len() >= 4,
        rects_from(b, 4) is Some,
    ensures
        request(XFIXES_OPCODE, 5, b) == Some(
            Request::<Seq<u8>, Seq<u32>, Seq<Rectangle>>::SetRegion {
                region: wire::u32_at(b, 0),
                rectangles: rects_from(b, 4)->0,
            },
        ),
        request(XFIXES_OPCODE, 11, b) == request(XFIXES_OPCODE, 5, b),
{
    reveal(request);
}

proof fn lemma_rects_inside(a: Seq<u8>, rectangles: Seq<Rectangle>)
    requires
        a.len() == 4,
    ensures
        rects_from(a + wire::le_rects(rectangles), 4) == Some(rectangles),
{
    let l = wire::le_rects(rectangles);
    let b = a + l;
    if rectangles.len() > 0 {
        wire::law_lists_have_each_rectangle_in_its_place(rectangles, 0);
    } else {
        assert(l =~= Seq::empty());
    }
    assert forall|i: int| 0 <= i < rectangles.len() implies wire::rect_at(b, 4 + 8 * i) == #[trigger] rectangles[i] by {
        wire::law_lists_have_each_rectangle_in_its_place(rectangles, i);
        lemma_rect_inside(a, l, 8 * i);
    }
    assert(rects_from(b, 4)->0 =~= rectangles);
}

proof fn lemma_rect_inside(a: Seq<u8>, l: Seq<u8>, i: int)
    requires
        0 <= i,
        i + 8 <= l.len(),
    ensures
        wire::rect_at(a + l, a.len() + i) == wire::rect_at(l, i),
{
}

proof fn lemma_bits_set(mask: u32, j: u32, n: nat)
    requires
        j < 32,
        n <= 32,
        (mask >> j) & 1 == 0,
    ensures
        bits_below(mask | (1u32 << j), n) == bits_below(mask, n) + if j < n {
            1nat
        } else {
            0
        },
    decreases n,
{
    if n > 0 {
        lemma_bits_set(mask, j, (n - 1) as nat);
        let k = (n - 1) as u32;
        assert(k != j ==> ((mask | (1u32 << j)) >> k) & 1 == (mask >> k) & 1) by (bit_vector)
            requires
                j < 32,
                k < 32,
        ;
        assert(((mask | (1u32 << j)) >> j) & 1 == 1) by (bit_vector)
            requires
                j < 32,
        ;
    }
}

proof fn lemma_no_bits(n: nat)
    requires
        n <= 32,
    ensures
        bits_below(0, n) == 0,
    decreases n,
{
    if n > 0 {
        lemma_no_bits((n - 1) as nat);
        let k = (n - 1) as u32;
        assert((0u32 >> k) & 1 == 0) by (bit_vector);
    }
}

/// The values of a request stand in the order of their bits: one more attribute below the
/// event mask's puts that mask one value further on, one above it does not move it, and
/// where it is alone it comes first.
pub proof fn law_values_stand_in_the_order_of_their_bits(mask: u32, bit: u32)
    requires
        bit < 32,
        (mask >> bit) & 1 == 0,
    ensures
        mask_place(mask | (1u32 << bit)) == mask_place(mask) + if bit < 11 {
            4int
        } else {
            0
        },
        mask_place(0) == 0,
{
    lemma_bits_set(mask, bit, 11);
    lemma_no_bits(11);
}

/// A window's event mask is read as a client writes it, in `ChangeWindowAttributes` that
/// sets nothing else.
pub proof fn law_event_mask_is_read(window: u32, mask: u32, minor: u8)
    ensures
        request(2, minor, wire::le32(window) + wire::le32(0x800) + wire::le32(mask)) == Some(
            Request::<Seq<u8>, Seq<u32>, Seq<Rectangle>>::Change(Change::SetEventMask { window, mask }),
        ),
{
    reveal(request);
    let b = wire::le32(window) + wire::le32(0x800) + wire::le32(mask);
    assert(b.subrange(0, 4) =~= wire::le32(window));
    wire::lemma_reads_32(b, 0, window);
    assert(b.subrange(4, 8) =~= wire::le32(0x800));
    wire::lemma_reads_32(b, 4, 0x800);
    assert(b.subrange(8, 12) =~= wire::le32(mask));
    wire::lemma_reads_32(b, 8, mask);
    assert((0x800u32 >> 11u32) & 1 == 1 && (0u32 >> 11u32) & 1 == 0 && 0u32 | (1u32 << 11u32) == 0x800) by (bit_vector);
    law_values_stand_in_the_order_of_their_bits(0, 11);
}

/// Auto-repeat is to be off where a client sets its mode to 0, and only there.
pub proof fn law_auto_repeat_is_read(mode: u32, minor: u8)
    ensures
        request(102, minor, wire::le32(0x80) + wire::le32(mode)) == Some(
            if mode == 0 {
                Request::<Seq<u8>, Seq<u32>, Seq<Rectangle>>::NoAutoRepeat
            } else {
                Request::<Seq<u8>, Seq<u32>, Seq<Rectangle>>::Nothing
            },
        ),
{
    reveal(request);
    let b = wire::le32(0x80) + wire::le32(mode);
    assert(b.subrange(0, 4) =~= wire::le32(0x80));
    wire::lemma_reads_32(b, 0, 0x80);
    assert(b.subrange(4, 8) =~= wire::le32(mode));
    wire::lemma_reads_32(b, 4, mode);
    assert((0x80u32 >> 7u32) & 1 == 1 && (0u32 >> 7u32) & 1 == 0 && 0u32 | (1u32 << 7u32) == 0x80) by (bit_vector);
    lemma_bits_set(0, 7, 7);
    lemma_no_bits(7);
}

/// A text has half as many characters as it has bytes, where an odd number of them is
/// padded by one more.
pub proof fn law_characters_are_two_bytes(font: u32, text: Seq<u8>, n: int)
    requires
        text.len() == 2 * n,
        0 <= n <= u64::MAX,
    ensures
        request(48, 0, wire::le32(font) + text) == Some(
            Request::<Seq<u8>, Seq<u32>, Seq<Rectangle>>::Ask(Ask::QueryTextExtents { characters: n as u64 }),
        ),
        request(48, 1, wire::le32(font) + text + seq![0u8, 0u8]) == Some(
            Request::<Seq<u8>, Seq<u32>, Seq<Rectangle>>::Ask(Ask::QueryTextExtents { characters: n as u64 }),
        ),
{
    reveal(request);
}

} // verus!
