//! The runtime configuration: backend choices and where the wrapped command begins,
//! parsed X11-style from the command line.

use crate::util::args;
use crate::util::args::ArgEnum;
use crate::util::geometry;
use crate::util::geometry::{Geometry, GeometryError};
use crate::util::list;
use vstd::prelude::*;
use vstd::utf8::*;

verus! {

#[derive(Clone, Copy, PartialEq, Eq, Structural, Debug)]
pub enum CursorType {
    Auto,
    /// The cursor is part of the captured screen.
    Baked,
}

#[derive(Clone, Copy, PartialEq, Eq, Structural, Debug)]
pub enum ScreenType {
    Auto,
    Off,
    Screencopy,
    Imagecopy,
}

#[derive(Clone, Copy, PartialEq, Eq, Structural, Debug)]
pub enum ClipboardType {
    Auto,
    Off,
    Wlr,
    Ext,
}

/// The protocol that carries resolution changes to the compositor.
#[derive(Clone, Copy, PartialEq, Eq, Structural, Debug)]
pub enum OutMgrType {
    Auto,
    Off,
    Wlr,
}

/// The protocol that wakes outputs the compositor put to sleep.
#[derive(Clone, Copy, PartialEq, Eq, Structural, Debug)]
pub enum PwrMgrType {
    Auto,
    Off,
    Wlr,
}

/// Which seat input goes to.
pub enum SeatChoice {
    /// The first that there is.
    First,
    /// The one of that name.
    Named(String),
    /// One of our own.
    Transient,
}

#[verifier::ext_equal]
pub enum SeatChoiceView {
    First,
    Named(Seq<char>),
    Transient,
}

impl View for SeatChoice {
    type V = SeatChoiceView;

    open spec fn view(&self) -> SeatChoiceView {
        match *self {
            SeatChoice::First => SeatChoiceView::First,
            SeatChoice::Named(n) => SeatChoiceView::Named(n@),
            SeatChoice::Transient => SeatChoiceView::Transient,
        }
    }
}

impl ArgEnum for CursorType {
    open spec fn named(s: Seq<char>) -> Option<Self> {
        if s == "auto"@ {
            Some(CursorType::Auto)
        } else if s == "none"@ {
            Some(CursorType::Baked)
        } else {
            None
        }
    }

    open spec fn names() -> Seq<Seq<char>> {
        seq!["auto"@, "none"@]
    }

    fn variants() -> (v: Vec<&'static str>) {
        let mut v: Vec<&'static str> = Vec::new();
        v.push("auto");
        v.push("none");
        proof {
            let names = Self::names();
            assert(v@.map_values(|s: &'static str| s@) =~= names);
            assert(names[0] == "auto"@);
            assert(names[1] == "none"@);
        }
        v
    }

    fn from_arg(s: &Vec<char>) -> (r: Option<Self>) {
        let l = args::to_lower(s, 0, s.len());
        assert(s@.subrange(0, s@.len() as int) =~= s@);
        if args::is_text(&l, "auto") {
            Some(CursorType::Auto)
        } else if args::is_text(&l, "none") {
            Some(CursorType::Baked)
        } else {
            None
        }
    }
}

impl ArgEnum for ScreenType {
    open spec fn named(s: Seq<char>) -> Option<Self> {
        if s == "auto"@ {
            Some(ScreenType::Auto)
        } else if s == "none"@ {
            Some(ScreenType::Off)
        } else if s == "screencopy"@ {
            Some(ScreenType::Screencopy)
        } else if s == "imagecopy"@ {
            Some(ScreenType::Imagecopy)
        } else {
            None
        }
    }

    open spec fn names() -> Seq<Seq<char>> {
        seq!["auto"@, "none"@, "screencopy"@, "imagecopy"@]
    }

    fn variants() -> (v: Vec<&'static str>) {
        let mut v: Vec<&'static str> = Vec::new();
        v.push("auto");
        v.push("none");
        v.push("screencopy");
        v.push("imagecopy");
        proof {
            let names = Self::names();
            assert(v@.map_values(|s: &'static str| s@) =~= names);
            assert(names[0] == "auto"@);
            assert(names[1] == "none"@);
            assert(names[2] == "screencopy"@);
            assert(names[3] == "imagecopy"@);
        }
        v
    }

    fn from_arg(s: &Vec<char>) -> (r: Option<Self>) {
        let l = args::to_lower(s, 0, s.len());
        assert(s@.subrange(0, s@.len() as int) =~= s@);
        if args::is_text(&l, "auto") {
            Some(ScreenType::Auto)
        } else if args::is_text(&l, "none") {
            Some(ScreenType::Off)
        } else if args::is_text(&l, "screencopy") {
            Some(ScreenType::Screencopy)
        } else if args::is_text(&l, "imagecopy") {
            Some(ScreenType::Imagecopy)
        } else {
            None
        }
    }
}

impl ArgEnum for ClipboardType {
    open spec fn named(s: Seq<char>) -> Option<Self> {
        if s == "auto"@ {
            Some(ClipboardType::Auto)
        } else if s == "none"@ {
            Some(ClipboardType::Off)
        } else if s == "wlr"@ {
            Some(ClipboardType::Wlr)
        } else if s == "ext"@ {
            Some(ClipboardType::Ext)
        } else {
            None
        }
    }

    open spec fn names() -> Seq<Seq<char>> {
        seq!["auto"@, "none"@, "wlr"@, "ext"@]
    }

    fn variants() -> (v: Vec<&'static str>) {
        let mut v: Vec<&'static str> = Vec::new();
        v.push("auto");
        v.push("none");
        v.push("wlr");
        v.push("ext");
        proof {
            let names = Self::names();
            assert(v@.map_values(|s: &'static str| s@) =~= names);
            assert(names[0] == "auto"@);
            assert(names[1] == "none"@);
            assert(names[2] == "wlr"@);
            assert(names[3] == "ext"@);
        }
        v
    }

    fn from_arg(s: &Vec<char>) -> (r: Option<Self>) {
        let l = args::to_lower(s, 0, s.len());
        assert(s@.subrange(0, s@.len() as int) =~= s@);
        if args::is_text(&l, "auto") {
            Some(ClipboardType::Auto)
        } else if args::is_text(&l, "none") {
            Some(ClipboardType::Off)
        } else if args::is_text(&l, "wlr") {
            Some(ClipboardType::Wlr)
        } else if args::is_text(&l, "ext") {
            Some(ClipboardType::Ext)
        } else {
            None
        }
    }
}

impl ArgEnum for OutMgrType {
    open spec fn named(s: Seq<char>) -> Option<Self> {
        if s == "auto"@ {
            Some(OutMgrType::Auto)
        } else if s == "none"@ {
            Some(OutMgrType::Off)
        } else if s == "wlr"@ {
            Some(OutMgrType::Wlr)
        } else {
            None
        }
    }

    open spec fn names() -> Seq<Seq<char>> {
        seq!["auto"@, "none"@, "wlr"@]
    }

    fn variants() -> (v: Vec<&'static str>) {
        let mut v: Vec<&'static str> = Vec::new();
        v.push("auto");
        v.push("none");
        v.push("wlr");
        proof {
            let names = Self::names();
            assert(v@.map_values(|s: &'static str| s@) =~= names);
            assert(names[0] == "auto"@);
            assert(names[1] == "none"@);
            assert(names[2] == "wlr"@);
        }
        v
    }

    fn from_arg(s: &Vec<char>) -> (r: Option<Self>) {
        let l = args::to_lower(s, 0, s.len());
        assert(s@.subrange(0, s@.len() as int) =~= s@);
        if args::is_text(&l, "auto") {
            Some(OutMgrType::Auto)
        } else if args::is_text(&l, "none") {
            Some(OutMgrType::Off)
        } else if args::is_text(&l, "wlr") {
            Some(OutMgrType::Wlr)
        } else {
            None
        }
    }
}

impl OutMgrType {
    pub fn wants_wlr(self) -> (b: bool)
        ensures
            b == (self is Auto || self is Wlr),
    {
        matches!(self, Self::Auto | Self::Wlr)
    }
}

impl ArgEnum for PwrMgrType {
    open spec fn named(s: Seq<char>) -> Option<Self> {
        if s == "auto"@ {
            Some(PwrMgrType::Auto)
        } else if s == "none"@ {
            Some(PwrMgrType::Off)
        } else if s == "wlr"@ {
            Some(PwrMgrType::Wlr)
        } else {
            None
        }
    }

    open spec fn names() -> Seq<Seq<char>> {
        seq!["auto"@, "none"@, "wlr"@]
    }

    fn variants() -> (v: Vec<&'static str>) {
        let mut v: Vec<&'static str> = Vec::new();
        v.push("auto");
        v.push("none");
        v.push("wlr");
        proof {
            let names = Self::names();
            assert(v@.map_values(|s: &'static str| s@) =~= names);
            assert(names[0] == "auto"@);
            assert(names[1] == "none"@);
            assert(names[2] == "wlr"@);
        }
        v
    }

    fn from_arg(s: &Vec<char>) -> (r: Option<Self>) {
        let l = args::to_lower(s, 0, s.len());
        assert(s@.subrange(0, s@.len() as int) =~= s@);
        if args::is_text(&l, "auto") {
            Some(PwrMgrType::Auto)
        } else if args::is_text(&l, "none") {
            Some(PwrMgrType::Off)
        } else if args::is_text(&l, "wlr") {
            Some(PwrMgrType::Wlr)
        } else {
            None
        }
    }
}

impl PwrMgrType {
    pub fn wants_wlr(self) -> (b: bool)
        ensures
            b == (self is Auto || self is Wlr),
    {
        matches!(self, Self::Auto | Self::Wlr)
    }
}

impl ScreenType {
    pub fn wants_screencopy(self) -> (b: bool)
        ensures
            b == (self is Auto || self is Screencopy),
    {
        matches!(self, Self::Auto | Self::Screencopy)
    }

    pub fn wants_imagecopy(self) -> (b: bool)
        ensures
            b == (self is Auto || self is Imagecopy),
    {
        matches!(self, Self::Auto | Self::Imagecopy)
    }
}

impl ClipboardType {
    pub fn wants_wlr(self) -> (b: bool)
        ensures
            b == (self is Auto || self is Wlr),
    {
        matches!(self, Self::Auto | Self::Wlr)
    }

    pub fn wants_ext(self) -> (b: bool)
        ensures
            b == (self is Auto || self is Ext),
    {
        matches!(self, Self::Auto | Self::Ext)
    }
}

/// The options.
#[derive(Clone, Copy, PartialEq, Eq, Structural, Debug)]
pub enum Opt {
    /// The display number.
    Display,
    /// Write the display number to this fd once the server is ready.
    Displayfd,
    /// The screen capture protocol.
    Screen,
    /// The clipboard protocol.
    Clipboard,
    /// The cursor source (if none, it's baked into the screen capture).
    Cursor,
    /// Use the Wayland seat with this name.
    Seat,
    /// The fallback screen size before outputs are known.
    Geometry,
    /// Cap the screen capture frame rate.
    Fps,
    /// Don't advertise the DAMAGE extension (force clients to poll).
    Nodamage,
    /// Don't bridge the PRIMARY selection (middle-click paste of selected text).
    Noprimary,
    /// Run until stopped without launching a command.
    Nowrap,
    /// Profile the screen capture.
    Profile,
    /// Trace requests to stderr.
    Xtrace,
    /// Suppress informational logging.
    Quiet,
    /// Log extra detail.
    Verbose,
    /// Carry clients' resolution changes to the compositor.
    Dynres,
    /// The protocol for resolution changes.
    Outmgr,
    /// The protocol to wake sleeping outputs with.
    Pwrmgr,
    /// Trace the clipboard to stderr.
    Cliptrace,
}

/// The option of a name in lower case.
pub open spec fn opt_named(s: Seq<char>) -> Option<Opt> {
    if s == "display"@ {
        Some(Opt::Display)
    } else if s == "displayfd"@ {
        Some(Opt::Displayfd)
    } else if s == "screen"@ {
        Some(Opt::Screen)
    } else if s == "clipboard"@ {
        Some(Opt::Clipboard)
    } else if s == "cursor"@ {
        Some(Opt::Cursor)
    } else if s == "seat"@ {
        Some(Opt::Seat)
    } else if s == "geometry"@ {
        Some(Opt::Geometry)
    } else if s == "fps"@ {
        Some(Opt::Fps)
    } else if s == "nodamage"@ {
        Some(Opt::Nodamage)
    } else if s == "noprimary"@ {
        Some(Opt::Noprimary)
    } else if s == "nowrap"@ {
        Some(Opt::Nowrap)
    } else if s == "profile"@ {
        Some(Opt::Profile)
    } else if s == "xtrace"@ {
        Some(Opt::Xtrace)
    } else if s == "quiet"@ {
        Some(Opt::Quiet)
    } else if s == "verbose"@ {
        Some(Opt::Verbose)
    } else if s == "dynres"@ {
        Some(Opt::Dynres)
    } else if s == "outmgr"@ {
        Some(Opt::Outmgr)
    } else if s == "pwrmgr"@ {
        Some(Opt::Pwrmgr)
    } else if s == "cliptrace"@ {
        Some(Opt::Cliptrace)
    } else {
        None
    }
}

impl Opt {
    /// The name of the option.
    pub open spec fn text(self) -> Seq<char> {
        match self {
            Opt::Display => "display"@,
            Opt::Displayfd => "displayfd"@,
            Opt::Screen => "screen"@,
            Opt::Clipboard => "clipboard"@,
            Opt::Cursor => "cursor"@,
            Opt::Seat => "seat"@,
            Opt::Geometry => "geometry"@,
            Opt::Fps => "fps"@,
            Opt::Nodamage => "nodamage"@,
            Opt::Noprimary => "noprimary"@,
            Opt::Nowrap => "nowrap"@,
            Opt::Profile => "profile"@,
            Opt::Xtrace => "xtrace"@,
            Opt::Quiet => "quiet"@,
            Opt::Verbose => "verbose"@,
            Opt::Dynres => "dynres"@,
            Opt::Outmgr => "outmgr"@,
            Opt::Pwrmgr => "pwrmgr"@,
            Opt::Cliptrace => "cliptrace"@,
        }
    }

    /// The name of the option.
    pub fn name(self) -> (s: &'static str)
        ensures
            s@ == self.text(),
    {
        match self {
            Opt::Display => "display",
            Opt::Displayfd => "displayfd",
            Opt::Screen => "screen",
            Opt::Clipboard => "clipboard",
            Opt::Cursor => "cursor",
            Opt::Seat => "seat",
            Opt::Geometry => "geometry",
            Opt::Fps => "fps",
            Opt::Nodamage => "nodamage",
            Opt::Noprimary => "noprimary",
            Opt::Nowrap => "nowrap",
            Opt::Profile => "profile",
            Opt::Xtrace => "xtrace",
            Opt::Quiet => "quiet",
            Opt::Verbose => "verbose",
            Opt::Dynres => "dynres",
            Opt::Outmgr => "outmgr",
            Opt::Pwrmgr => "pwrmgr",
            Opt::Cliptrace => "cliptrace",
        }
    }

    /// The values that the option can have, if it is a choice.
    pub open spec fn choice_names(self) -> Seq<Seq<char>> {
        match self {
            Opt::Screen => ScreenType::names(),
            Opt::Clipboard => ClipboardType::names(),
            Opt::Cursor => CursorType::names(),
            Opt::Outmgr => OutMgrType::names(),
            Opt::Pwrmgr => PwrMgrType::names(),
            _ => Seq::empty(),
        }
    }

    /// The values that the option can have, if it is a choice; else none.
    pub fn choices(self) -> (v: Vec<&'static str>)
        ensures
            v@.map_values(|s: &'static str| s@) == self.choice_names(),
    {
        match self {
            Opt::Screen => ScreenType::variants(),
            Opt::Clipboard => ClipboardType::variants(),
            Opt::Cursor => CursorType::variants(),
            Opt::Outmgr => OutMgrType::variants(),
            Opt::Pwrmgr => PwrMgrType::variants(),
            _ => {
                let v: Vec<&'static str> = Vec::new();
                assert(v@.map_values(|s: &'static str| s@) =~= Seq::empty());
                v
            },
        }
    }
}

/// The option of a name in lower case.
fn opt_of(s: &Vec<char>) -> (r: Option<Opt>)
    ensures
        r == opt_named(s@),
{
    if args::is_text(s, "display") {
        Some(Opt::Display)
    } else if args::is_text(s, "displayfd") {
        Some(Opt::Displayfd)
    } else if args::is_text(s, "screen") {
        Some(Opt::Screen)
    } else if args::is_text(s, "clipboard") {
        Some(Opt::Clipboard)
    } else if args::is_text(s, "cursor") {
        Some(Opt::Cursor)
    } else if args::is_text(s, "seat") {
        Some(Opt::Seat)
    } else if args::is_text(s, "geometry") {
        Some(Opt::Geometry)
    } else if args::is_text(s, "fps") {
        Some(Opt::Fps)
    } else if args::is_text(s, "nodamage") {
        Some(Opt::Nodamage)
    } else if args::is_text(s, "noprimary") {
        Some(Opt::Noprimary)
    } else if args::is_text(s, "nowrap") {
        Some(Opt::Nowrap)
    } else if args::is_text(s, "profile") {
        Some(Opt::Profile)
    } else if args::is_text(s, "xtrace") {
        Some(Opt::Xtrace)
    } else if args::is_text(s, "quiet") {
        Some(Opt::Quiet)
    } else if args::is_text(s, "verbose") {
        Some(Opt::Verbose)
    } else if args::is_text(s, "dynres") {
        Some(Opt::Dynres)
    } else if args::is_text(s, "outmgr") {
        Some(Opt::Outmgr)
    } else if args::is_text(s, "pwrmgr") {
        Some(Opt::Pwrmgr)
    } else if args::is_text(s, "cliptrace") {
        Some(Opt::Cliptrace)
    } else {
        None
    }
}

/// Options that take no value.
pub open spec fn is_flag(o: Opt) -> bool {
    o is Nodamage || o is Noprimary || o is Nowrap || o is Profile || o is Xtrace || o is Quiet || o is Verbose
        || o is Dynres || o is Cliptrace
}

/// What the command line says.
#[derive(Debug)]
pub struct Config {
    pub display: Option<u32>,
    pub displayfd: Option<u32>,
    pub screen: ScreenType,
    pub clipboard: ClipboardType,
    pub cursor: CursorType,
    pub seat: Option<String>,
    pub geometry: Option<Geometry>,
    pub fps: Option<u32>,
    pub nodamage: bool,
    pub noprimary: bool,
    pub nowrap: bool,
    pub profile: bool,
    pub xtrace: bool,
    pub quiet: bool,
    pub verbose: bool,
    pub dynres: bool,
    pub outmgr: OutMgrType,
    pub pwrmgr: PwrMgrType,
    pub cliptrace: bool,
}

#[verifier::ext_equal]
pub struct ConfigView {
    pub display: Option<u32>,
    pub displayfd: Option<u32>,
    pub screen: ScreenType,
    pub clipboard: ClipboardType,
    pub cursor: CursorType,
    pub seat: Option<Seq<char>>,
    pub geometry: Option<Geometry>,
    pub fps: Option<u32>,
    pub nodamage: bool,
    pub noprimary: bool,
    pub nowrap: bool,
    pub profile: bool,
    pub xtrace: bool,
    pub quiet: bool,
    pub verbose: bool,
    pub dynres: bool,
    pub outmgr: OutMgrType,
    pub pwrmgr: PwrMgrType,
    pub cliptrace: bool,
}

impl View for Config {
    type V = ConfigView;

    open spec fn view(&self) -> ConfigView {
        ConfigView {
            display: self.display,
            displayfd: self.displayfd,
            screen: self.screen,
            clipboard: self.clipboard,
            cursor: self.cursor,
            seat: match self.seat {
                Some(s) => Some(s@),
                None => None,
            },
            geometry: self.geometry,
            fps: self.fps,
            nodamage: self.nodamage,
            noprimary: self.noprimary,
            nowrap: self.nowrap,
            profile: self.profile,
            xtrace: self.xtrace,
            quiet: self.quiet,
            verbose: self.verbose,
            dynres: self.dynres,
            outmgr: self.outmgr,
            pwrmgr: self.pwrmgr,
            cliptrace: self.cliptrace,
        }
    }
}

/// A number as a configuration value.
pub open spec fn number_value(v: Seq<char>) -> Option<u32> {
    match list::number_of(v, u32::MAX as int) {
        Some(n) => Some(n as u32),
        None => None,
    }
}

impl ConfigView {
    /// Which seat input goes to.
    pub open spec fn seat_choice(self) -> SeatChoiceView {
        match self.seat {
            None => SeatChoiceView::First,
            Some(n) => if n == "transient"@ {
                SeatChoiceView::Transient
            } else {
                SeatChoiceView::Named(n)
            },
        }
    }

    /// Without any options.
    pub open spec fn initial() -> ConfigView {
        ConfigView {
            display: None,
            displayfd: None,
            screen: ScreenType::Auto,
            clipboard: ClipboardType::Auto,
            cursor: CursorType::Auto,
            seat: None,
            geometry: None,
            fps: None,
            nodamage: false,
            noprimary: false,
            nowrap: false,
            profile: false,
            xtrace: false,
            quiet: false,
            verbose: false,
            dynres: false,
            outmgr: OutMgrType::Auto,
            pwrmgr: PwrMgrType::Auto,
            cliptrace: false,
        }
    }

    /// With a flag.
    pub open spec fn flagged(self, o: Opt) -> ConfigView {
        match o {
            Opt::Nodamage => ConfigView { nodamage: true, ..self },
            Opt::Noprimary => ConfigView { noprimary: true, ..self },
            Opt::Nowrap => ConfigView { nowrap: true, ..self },
            Opt::Profile => ConfigView { profile: true, ..self },
            Opt::Xtrace => ConfigView { xtrace: true, ..self },
            Opt::Quiet => ConfigView { quiet: true, ..self },
            Opt::Verbose => ConfigView { verbose: true, ..self },
            Opt::Dynres => ConfigView { dynres: true, ..self },
            Opt::Cliptrace => ConfigView { cliptrace: true, ..self },
            _ => self,
        }
    }

    /// With the value of an option, `None` if it is not a value for it.
    pub open spec fn valued(self, o: Opt, v: Seq<char>) -> Option<ConfigView> {
        match o {
            Opt::Display => match number_value(v) {
                Some(n) => Some(ConfigView { display: Some(n), ..self }),
                None => None,
            },
            Opt::Displayfd => match number_value(v) {
                Some(n) => Some(ConfigView { displayfd: Some(n), ..self }),
                None => None,
            },
            Opt::Fps => match number_value(v) {
                Some(n) => Some(ConfigView { fps: Some(n), ..self }),
                None => None,
            },
            Opt::Screen => match ScreenType::named(args::lowered(v)) {
                Some(t) => Some(ConfigView { screen: t, ..self }),
                None => None,
            },
            Opt::Clipboard => match ClipboardType::named(args::lowered(v)) {
                Some(t) => Some(ConfigView { clipboard: t, ..self }),
                None => None,
            },
            Opt::Cursor => match CursorType::named(args::lowered(v)) {
                Some(t) => Some(ConfigView { cursor: t, ..self }),
                None => None,
            },
            Opt::Outmgr => match OutMgrType::named(args::lowered(v)) {
                Some(t) => Some(ConfigView { outmgr: t, ..self }),
                None => None,
            },
            Opt::Pwrmgr => match PwrMgrType::named(args::lowered(v)) {
                Some(t) => Some(ConfigView { pwrmgr: t, ..self }),
                None => None,
            },
            Opt::Seat => Some(ConfigView { seat: Some(v), ..self }),
            Opt::Geometry => match geometry::geometry_of(v) {
                Ok((w, h)) => Some(ConfigView { geometry: Some(Geometry { width: w as u16, height: h as u16 }), ..self }),
                Err(_) => None,
            },
            _ => Some(self),
        }
    }
}

/// What is to be done.
pub enum Parsed {
    Help,
    Version,
    /// An option that is not known, by its name.
    Unknown(Vec<char>),
    /// An option that has no value.
    Missing(Opt),
    /// A value that is none for the option.
    Invalid(Opt, String),
    /// Run, with the command beginning at the argument.
    Ready(Config, usize),
}

#[verifier::ext_equal]
pub enum ParsedView {
    Help,
    Version,
    Unknown(Seq<char>),
    Missing(Opt),
    Invalid(Opt, Seq<char>),
    Ready(ConfigView, int),
}

impl View for Parsed {
    type V = ParsedView;

    open spec fn view(&self) -> ParsedView {
        match *self {
            Parsed::Help => ParsedView::Help,
            Parsed::Version => ParsedView::Version,
            Parsed::Unknown(n) => ParsedView::Unknown(n@),
            Parsed::Missing(o) => ParsedView::Missing(o),
            Parsed::Invalid(o, v) => ParsedView::Invalid(o, v@),
            Parsed::Ready(c, i) => ParsedView::Ready(c@, i as int),
        }
    }
}

/// What each of the arguments says, `None` for one that is not UTF-8.
pub open spec fn argument_texts(argv: Seq<Option<String>>) -> Seq<Option<Seq<char>>> {
    argv.map_values(
        |a: Option<String>|
            match a {
                Some(s) => Some(s@),
                None => None,
            },
    )
}

pub open spec fn is_equals() -> spec_fn(char) -> bool {
    |c: char| c == '='
}

/// The name of an option, in lower case, and the value that goes with it in the same
/// argument.
pub open spec fn split_option(s: Seq<char>) -> (Seq<char>, Option<Seq<char>>) {
    let body = s.skip(1);
    match list::first_index(body, is_equals()) {
        Some(k) => (args::lowered(body.take(k)), Some(body.skip(k + 1))),
        None => (args::lowered(body), None),
    }
}

/// What the arguments from `i` on say, on top of `c`.
pub open spec fn parse_from(c: ConfigView, argv: Seq<Option<Seq<char>>>, i: int) -> ParsedView
    decreases argv.len() - i,
{
    if i < 0 || i >= argv.len() {
        ParsedView::Ready(c, i)
    } else {
        match argv[i] {
            None => ParsedView::Ready(c, i),
            Some(s) => if s == "--"@ {
                ParsedView::Ready(c, i + 1)
            } else if s.len() < 2 || s[0] != '-' {
                // the first argument that is no option: the command starts here
                ParsedView::Ready(c, i)
            } else {
                let (name, inline) = split_option(s);
                if name == "help"@ || name == "h"@ {
                    ParsedView::Help
                } else if name == "version"@ || name == "v"@ {
                    ParsedView::Version
                } else {
                    match opt_named(name) {
                        None => ParsedView::Unknown(name),
                        Some(o) => if is_flag(o) {
                            parse_from(c.flagged(o), argv, i + 1)
                        } else {
                            match inline {
                                Some(v) => match c.valued(o, v) {
                                    Some(d) => parse_from(d, argv, i + 1),
                                    None => ParsedView::Invalid(o, v),
                                },
                                None => if i + 1 < argv.len() && argv[i + 1] is Some {
                                    match c.valued(o, argv[i + 1]->0) {
                                        Some(d) => parse_from(d, argv, i + 2),
                                        None => ParsedView::Invalid(o, argv[i + 1]->0),
                                    }
                                } else {
                                    ParsedView::Missing(o)
                                },
                            }
                        },
                    }
                }
            },
        }
    }
}

impl Default for Config {
    fn default() -> (c: Self)
        ensures
            c@ == ConfigView::initial(),
    {
        Config {
            display: None,
            displayfd: None,
            screen: ScreenType::Auto,
            clipboard: ClipboardType::Auto,
            cursor: CursorType::Auto,
            seat: None,
            geometry: None,
            fps: None,
            nodamage: false,
            noprimary: false,
            nowrap: false,
            profile: false,
            xtrace: false,
            quiet: false,
            verbose: false,
            dynres: false,
            outmgr: OutMgrType::Auto,
            pwrmgr: PwrMgrType::Auto,
            cliptrace: false,
        }
    }
}

impl Config {
    /// Whether the DAMAGE extension is offered.
    pub fn damage(&self) -> (b: bool)
        ensures
            b == !self@.nodamage,
    {
        !self.nodamage
    }

    /// Whether resolution changes are carried over `zwlr_output_manager_v1`.
    pub fn outmgr_wants_wlr(&self) -> (b: bool)
        ensures
            b == (self@.dynres && (self@.outmgr is Auto || self@.outmgr is Wlr)),
    {
        self.dynres && self.outmgr.wants_wlr()
    }

    /// Which seat input goes to: `-seat transient` asks for one of our own.
    pub fn seat_choice(&self) -> (c: SeatChoice)
        ensures
            c@ == self@.seat_choice(),
    {
        match &self.seat {
            None => SeatChoice::First,
            Some(n) => {
                let chars = list::chars(n.as_str());
                if args::is_text(&chars, "transient") {
                    SeatChoice::Transient
                } else {
                    SeatChoice::Named(n.clone())
                }
            },
        }
    }

    fn set_flag(&mut self, o: Opt)
        ensures
            final(self)@ == old(self)@.flagged(o),
    {
        match o {
            Opt::Nodamage => {
                self.nodamage = true;
            },
            Opt::Noprimary => {
                self.noprimary = true;
            },
            Opt::Nowrap => {
                self.nowrap = true;
            },
            Opt::Profile => {
                self.profile = true;
            },
            Opt::Xtrace => {
                self.xtrace = true;
            },
            Opt::Quiet => {
                self.quiet = true;
            },
            Opt::Verbose => {
                self.verbose = true;
            },
            Opt::Dynres => {
                self.dynres = true;
            },
            Opt::Cliptrace => {
                self.cliptrace = true;
            },
            _ => {},
        }
    }

    fn set_value(&mut self, o: Opt, v: &String) -> (ok: bool)
        ensures
            ok == old(self)@.valued(o, v@) is Some,
            ok ==> final(self)@ == old(self)@.valued(o, v@)->0,
            !ok ==> final(self)@ == old(self)@,
    {
        let chars = list::chars(v.as_str());
        assert(chars@.subrange(0, chars@.len() as int) =~= chars@);
        match o {
            Opt::Display => match list::number(&chars, 0, chars.len(), u32::MAX) {
                Some(n) => {
                    self.display = Some(n);
                    true
                },
                None => false,
            },
            Opt::Displayfd => match list::number(&chars, 0, chars.len(), u32::MAX) {
                Some(n) => {
                    self.displayfd = Some(n);
                    true
                },
                None => false,
            },
            Opt::Fps => match list::number(&chars, 0, chars.len(), u32::MAX) {
                Some(n) => {
                    self.fps = Some(n);
                    true
                },
                None => false,
            },
            Opt::Screen => match ScreenType::from_arg(&chars) {
                Some(t) => {
                    self.screen = t;
                    true
                },
                None => false,
            },
            Opt::Clipboard => match ClipboardType::from_arg(&chars) {
                Some(t) => {
                    self.clipboard = t;
                    true
                },
                None => false,
            },
            Opt::Cursor => match CursorType::from_arg(&chars) {
                Some(t) => {
                    self.cursor = t;
                    true
                },
                None => false,
            },
            Opt::Outmgr => match OutMgrType::from_arg(&chars) {
                Some(t) => {
                    self.outmgr = t;
                    true
                },
                None => false,
            },
            Opt::Pwrmgr => match PwrMgrType::from_arg(&chars) {
                Some(t) => {
                    self.pwrmgr = t;
                    true
                },
                None => false,
            },
            Opt::Seat => {
                self.seat = Some(v.clone());
                true
            },
            Opt::Geometry => match Geometry::parse(v.as_str()) {
                Ok(g) => {
                    self.geometry = Some(g);
                    true
                },
                Err(_) => false,
            },
            _ => true,
        }
    }

    /// Parses the process arguments X11-style.
    pub fn parse(argv: &Vec<Option<String>>) -> (p: Parsed)
        ensures
            p@ == parse_from(ConfigView::initial(), argument_texts(argv@), 0),
    {
        let ghost av = argument_texts(argv@);
        let ghost want = parse_from(ConfigView::initial(), av, 0);
        let mut c = Config::default();
        let mut i: usize = 0;
        while i < argv.len()
            invariant
                i <= argv.len(),
                av == argument_texts(argv@),
                want == parse_from(ConfigView::initial(), av, 0),
                want == parse_from(c@, av, i as int),
            decreases argv.len() - i,
        {
            let s = match &argv[i] {
                None => {
                    assert(av[i as int] is None);
                    return Parsed::Ready(c, i);
                },
                Some(s) => s,
            };
            assert(av[i as int] == Some(s@));
            let chars = list::chars(s.as_str());
            if args::is_text(&chars, "--") {
                return Parsed::Ready(c, i + 1);
            }
            if chars.len() < 2 || chars[0] != '-' {
                return Parsed::Ready(c, i);
            }
            let ghost body = s@.skip(1);
            let mut k: usize = 1;
            while k < chars.len() && chars[k] != '='
                invariant
                    1 <= k <= chars.len(),
                    chars@ == s@,
                    body == s@.skip(1),
                    forall|j: int| 0 <= j < k - 1 ==> !is_equals()(#[trigger] body[j]),
                decreases chars.len() - k,
            {
                k += 1;
            }
            let name = args::to_lower(&chars, 1, k);
            let inline: Option<String> = if k < chars.len() {
                proof {
                    list::lemma_first_index_is(body, is_equals(), k as int - 1);
                    assert(body.skip(k as int) =~= s@.subrange(k as int + 1, s@.len() as int));
                    assert(chars@.subrange(1, k as int) =~= body.take(k as int - 1));
                }
                Some(s.as_str().substring_char(k + 1, chars.len()).to_owned())
            } else {
                proof {
                    list::lemma_first_index_none(body, is_equals());
                    assert(chars@.subrange(1, k as int) =~= body);
                }
                None
            };
            assert(split_option(s@).0 == name@);
            if args::is_text(&name, "help") || args::is_text(&name, "h") {
                return Parsed::Help;
            }
            if args::is_text(&name, "version") || args::is_text(&name, "v") {
                return Parsed::Version;
            }
            let o = match opt_of(&name) {
                None => {
                    return Parsed::Unknown(name);
                },
                Some(o) => o,
            };
            if flag(o) {
                c.set_flag(o);
                i += 1;
                continue ;
            }
            let (value, next): (String, usize) = match inline {
                Some(v) => (v, i + 1),
                None => {
                    if i + 1 >= argv.len() {
                        return Parsed::Missing(o);
                    }
                    match &argv[i + 1] {
                        Some(v) => {
                            assert(av[i as int + 1] == Some(v@));
                            (v.clone(), i + 2)
                        },
                        None => {
                            assert(av[i as int + 1] is None);
                            return Parsed::Missing(o);
                        },
                    }
                },
            };
            if !c.set_value(o, &value) {
                return Parsed::Invalid(o, value);
            }
            i = next;
        }
        Parsed::Ready(c, i)
    }
}

fn flag(o: Opt) -> (b: bool)
    ensures
        b == is_flag(o),
{
    matches!(
        o,
        Opt::Nodamage | Opt::Noprimary | Opt::Nowrap | Opt::Profile | Opt::Xtrace | Opt::Quiet | Opt::Verbose
            | Opt::Dynres | Opt::Cliptrace
    )
}

/// A value may stand behind its option or with it: both say the same.
pub proof fn law_inline_values_are_values(c: ConfigView, argv: Seq<Option<Seq<char>>>, i: int, o: Opt, v: Seq<char>)
    requires
        0 <= i,
        i + 1 < argv.len(),
        argv[i] is Some,
        argv[i + 1] == Some(v),
        ({
            let s = argv[i]->0;
            &&& s != "--"@ && s.len() >= 2 && s[0] == '-'
            &&& split_option(s).1 is None
            &&& opt_named(split_option(s).0) == Some(o)
            &&& split_option(s).0 != "help"@ && split_option(s).0 != "h"@
            &&& split_option(s).0 != "version"@ && split_option(s).0 != "v"@
        }),
        !is_flag(o),
        c.valued(o, v) is Some,
    ensures
        parse_from(c, argv, i) == parse_from(c.valued(o, v)->0, argv, i + 2),
{
}

/// What follows a `--` is the command, whatever it looks like.
pub proof fn law_two_dashes_end_the_options(c: ConfigView, argv: Seq<Option<Seq<char>>>, i: int)
    requires
        0 <= i < argv.len(),
        argv[i] == Some("--"@),
    ensures
        parse_from(c, argv, i) == ParsedView::Ready(c, i + 1),
{
}

/// The options and what they do, in the order in which they are listed.
pub open spec fn usage_rows() -> Seq<(Seq<char>, Seq<char>)> {
    seq![
        ("-display number"@, "display number"@),
        ("-displayfd fd"@, "write the display number to this fd once the server is ready"@),
        ("-screen [auto|none|screencopy|imagecopy]"@, "screen capture protocol."@),
        ("-clipboard [auto|none|wlr|ext]"@, "clipboard protocol"@),
        ("-cursor [auto|none]"@, "cursor source (if none, it's baked into the screen capture)"@),
        ("-seat name"@, "use the wayland seat with this name"@),
        ("-geometry WxH"@, "fallback screen size before outputs are known"@),
        ("-fps n"@, "cap the screen capture frame rate (default is optimized for vncagent-x11)"@),
        ("-nodamage"@, "don't advertise the DAMAGE extension (force clients to poll)"@),
        ("-noprimary"@, "don't bridge the PRIMARY selection (middle-click paste of selected text)"@),
        ("-nowrap"@, "run until stopped without launching a command"@),
        ("-profile"@, "profile the screen capture"@),
        ("-xtrace"@, "trace requests to stderr"@),
        ("-quiet"@, "suppress informational logging"@),
        ("-verbose"@, "log extra detail"@),
        ("-dynres"@, "carry clients' resolution changes to the compositor"@),
        ("-outmgr [auto|none|wlr]"@, "resolution change protocol"@),
        ("-pwrmgr [auto|none|wlr]"@, "protocol to wake sleeping outputs with"@),
        ("-cliptrace"@, "trace the clipboard to stderr"@),
        ("-help"@, "print this message"@),
        ("-version"@, "show the version and exit"@),
    ]
}

fn usage_table() -> (v: Vec<(&'static str, &'static str)>)
    ensures
        v@.map_values(|r: (&'static str, &'static str)| (r.0@, r.1@)) == usage_rows(),
{
    let mut v: Vec<(&'static str, &'static str)> = Vec::new();
    v.push(("-display number", "display number"));
    v.push(("-displayfd fd", "write the display number to this fd once the server is ready"));
    v.push(("-screen [auto|none|screencopy|imagecopy]", "screen capture protocol."));
    v.push(("-clipboard [auto|none|wlr|ext]", "clipboard protocol"));
    v.push(("-cursor [auto|none]", "cursor source (if none, it's baked into the screen capture)"));
    v.push(("-seat name", "use the wayland seat with this name"));
    v.push(("-geometry WxH", "fallback screen size before outputs are known"));
    v.push(("-fps n", "cap the screen capture frame rate (default is optimized for vncagent-x11)"));
    v.push(("-nodamage", "don't advertise the DAMAGE extension (force clients to poll)"));
    v.push(("-noprimary", "don't bridge the PRIMARY selection (middle-click paste of selected text)"));
    v.push(("-nowrap", "run until stopped without launching a command"));
    v.push(("-profile", "profile the screen capture"));
    v.push(("-xtrace", "trace requests to stderr"));
    v.push(("-quiet", "suppress informational logging"));
    v.push(("-verbose", "log extra detail"));
    v.push(("-dynres", "carry clients' resolution changes to the compositor"));
    v.push(("-outmgr [auto|none|wlr]", "resolution change protocol"));
    v.push(("-pwrmgr [auto|none|wlr]", "protocol to wake sleeping outputs with"));
    v.push(("-cliptrace", "trace the clipboard to stderr"));
    v.push(("-help", "print this message"));
    v.push(("-version", "show the version and exit"));
    assert(v@.map_values(|r: (&'static str, &'static str)| (r.0@, r.1@)) =~= usage_rows());
    v
}

/// One line of the help: the option, and what it does from column 45 on, or behind a
/// space where the option is too long for that.
pub open spec fn usage_line(option: Seq<char>, text: Seq<char>) -> Seq<u8> {
    let o = encode_utf8(option);
    o + Seq::new(geometry::max_of(45 - o.len(), 1) as nat, |i: int| 32u8) + encode_utf8(text) + seq![10u8]
}

/// The lines of the first `n` options.
pub open spec fn usage_lines(n: int) -> Seq<u8>
    decreases n,
{
    if n <= 0 {
        Seq::empty()
    } else {
        usage_lines(n - 1) + usage_line(usage_rows()[n - 1].0, usage_rows()[n - 1].1)
    }
}

/// The help for the program of that name.
pub open spec fn help_text(prog: Seq<char>) -> Seq<u8> {
    encode_utf8("use: "@) + encode_utf8(prog) + encode_utf8(" [options] command [args ...]"@) + seq![10u8]
        + usage_lines(usage_rows().len() as int)
}

/// `Xwayland -help`-style usage text.
pub fn help(prog: &str) -> (out: Vec<u8>)
    ensures
        out@ == help_text(prog@),
{
    let rows = usage_table();
    let ghost rv = usage_rows();
    let mut out: Vec<u8> = list::copy_bytes("use: ".as_bytes());
    list::append_bytes(&mut out, prog.as_bytes());
    list::append_bytes(&mut out, " [options] command [args ...]".as_bytes());
    out.push(10);
    let ghost head = out@;
    assert(head =~= encode_utf8("use: "@) + encode_utf8(prog@) + encode_utf8(" [options] command [args ...]"@) + seq![10u8]);
    assert(head + usage_lines(0) =~= head);
    assert(rows@.len() == rv.len()) by {
        assert(rows@.map_values(|r: (&'static str, &'static str)| (r.0@, r.1@)).len() == rows@.len());
    }
    let mut i: usize = 0;
    while i < rows.len()
        invariant
            i <= rows.len(),
            rv == usage_rows(),
            rows@.map_values(|r: (&'static str, &'static str)| (r.0@, r.1@)) == rv,
            out@ == head + usage_lines(i as int),
        decreases rows.len() - i,
    {
        let (option, text) = rows[i];
        assert((option@, text@) == rv[i as int]) by {
            assert(rows@.map_values(|r: (&'static str, &'static str)| (r.0@, r.1@))[i as int] == (option@, text@));
        }
        let ghost before = out@;
        let o = option.as_bytes();
        list::append_bytes(&mut out, o);
        let pad: usize = if o.len() < 44 { 45 - o.len() } else { 1 };
        let ghost spaces = Seq::new(pad as nat, |i: int| 32u8);
        let mut k: usize = 0;
        while k < pad
            invariant
                k <= pad,
                spaces == Seq::new(pad as nat, |i: int| 32u8),
                out@ =~= before + o@ + spaces.take(k as int),
            decreases pad - k,
        {
            out.push(32);
            k += 1;
        }
        list::append_bytes(&mut out, text.as_bytes());
        out.push(10);
        assert(out@ =~= before + usage_line(option@, text@));
        assert(out@ =~= head + usage_lines(i as int + 1));
        i += 1;
    }
    out
}

proof fn lemma_option_names()
    ensures
        opt_named("display"@) == Some(Opt::Display),
        opt_named("displayfd"@) == Some(Opt::Displayfd),
        opt_named("screen"@) == Some(Opt::Screen),
        opt_named("clipboard"@) == Some(Opt::Clipboard),
        opt_named("cursor"@) == Some(Opt::Cursor),
        opt_named("seat"@) == Some(Opt::Seat),
        opt_named("geometry"@) == Some(Opt::Geometry),
        opt_named("fps"@) == Some(Opt::Fps),
        opt_named("nodamage"@) == Some(Opt::Nodamage),
        opt_named("noprimary"@) == Some(Opt::Noprimary),
        opt_named("nowrap"@) == Some(Opt::Nowrap),
        opt_named("profile"@) == Some(Opt::Profile),
        opt_named("xtrace"@) == Some(Opt::Xtrace),
        opt_named("quiet"@) == Some(Opt::Quiet),
        opt_named("verbose"@) == Some(Opt::Verbose),
        opt_named("dynres"@) == Some(Opt::Dynres),
        opt_named("outmgr"@) == Some(Opt::Outmgr),
        opt_named("pwrmgr"@) == Some(Opt::Pwrmgr),
        opt_named("cliptrace"@) == Some(Opt::Cliptrace),
{
    reveal_strlit("display");
    assert("display"@.len() == 7);
    reveal_strlit("displayfd");
    assert("displayfd"@.len() == 9);
    reveal_strlit("screen");
    assert("screen"@.len() == 6);
    reveal_strlit("clipboard");
    assert("clipboard"@.len() == 9);
    reveal_strlit("cursor");
    assert("cursor"@.len() == 6);
    reveal_strlit("seat");
    assert("seat"@.len() == 4);
    reveal_strlit("geometry");
    assert("geometry"@.len() == 8);
    reveal_strlit("fps");
    assert("fps"@.len() == 3);
    reveal_strlit("nodamage");
    assert("nodamage"@.len() == 8);
    reveal_strlit("noprimary");
    assert("noprimary"@.len() == 9);
    reveal_strlit("nowrap");
    assert("nowrap"@.len() == 6);
    reveal_strlit("profile");
    assert("profile"@.len() == 7);
    reveal_strlit("xtrace");
    assert("xtrace"@.len() == 6);
    reveal_strlit("quiet");
    assert("quiet"@.len() == 5);
    reveal_strlit("verbose");
    assert("verbose"@.len() == 7);
    reveal_strlit("dynres");
    assert("dynres"@.len() == 6);
    reveal_strlit("outmgr");
    assert("outmgr"@.len() == 6);
    reveal_strlit("pwrmgr");
    assert("pwrmgr"@.len() == 6);
    reveal_strlit("cliptrace");
    assert("cliptrace"@.len() == 9);
    assert("display"@[0] == 'd');
    assert("profile"@[0] == 'p');
    assert("verbose"@[0] == 'v');
    assert("displayfd"@[4] == 'l');
    assert("clipboard"@[4] == 'b');
    assert("noprimary"@[4] == 'i');
    assert("cliptrace"@[4] == 't');
    assert("screen"@[0] == 's');
    assert("cursor"@[0] == 'c');
    assert("nowrap"@[0] == 'n');
    assert("xtrace"@[0] == 'x');
    assert("dynres"@[0] == 'd');
    assert("outmgr"@[0] == 'o');
    assert("pwrmgr"@[0] == 'p');
    assert("geometry"@[0] == 'g');
    assert("nodamage"@[0] == 'n');
}

proof fn lemma_not_help(name: Seq<char>)
    requires
        opt_named(name) is Some,
    ensures
        name != "help"@ && name != "h"@ && name != "version"@ && name != "v"@,
{
    reveal_strlit("display");
    assert("display"@.len() == 7);
    reveal_strlit("displayfd");
    assert("displayfd"@.len() == 9);
    reveal_strlit("screen");
    assert("screen"@.len() == 6);
    reveal_strlit("clipboard");
    assert("clipboard"@.len() == 9);
    reveal_strlit("cursor");
    assert("cursor"@.len() == 6);
    reveal_strlit("seat");
    assert("seat"@.len() == 4);
    reveal_strlit("geometry");
    assert("geometry"@.len() == 8);
    reveal_strlit("fps");
    assert("fps"@.len() == 3);
    reveal_strlit("nodamage");
    assert("nodamage"@.len() == 8);
    reveal_strlit("noprimary");
    assert("noprimary"@.len() == 9);
    reveal_strlit("nowrap");
    assert("nowrap"@.len() == 6);
    reveal_strlit("profile");
    assert("profile"@.len() == 7);
    reveal_strlit("xtrace");
    assert("xtrace"@.len() == 6);
    reveal_strlit("quiet");
    assert("quiet"@.len() == 5);
    reveal_strlit("verbose");
    assert("verbose"@.len() == 7);
    reveal_strlit("dynres");
    assert("dynres"@.len() == 6);
    reveal_strlit("outmgr");
    assert("outmgr"@.len() == 6);
    reveal_strlit("pwrmgr");
    assert("pwrmgr"@.len() == 6);
    reveal_strlit("cliptrace");
    assert("cliptrace"@.len() == 9);
    reveal_strlit("help");
    assert("help"@.len() == 4);
    reveal_strlit("h");
    assert("h"@.len() == 1);
    reveal_strlit("version");
    assert("version"@.len() == 7);
    reveal_strlit("v");
    assert("v"@.len() == 1);
    assert("display"@[3] == 'p');
    assert("profile"@[3] == 'f');
    assert("verbose"@[3] == 'b');
    assert("version"@[3] == 's');
    assert("displayfd"@[4] == 'l');
    assert("clipboard"@[4] == 'b');
    assert("noprimary"@[4] == 'i');
    assert("cliptrace"@[4] == 't');
    assert("screen"@[0] == 's');
    assert("cursor"@[0] == 'c');
    assert("nowrap"@[0] == 'n');
    assert("xtrace"@[0] == 'x');
    assert("dynres"@[0] == 'd');
    assert("outmgr"@[0] == 'o');
    assert("pwrmgr"@[0] == 'p');
    assert("seat"@[0] == 's');
    assert("help"@[0] == 'h');
    assert("geometry"@[0] == 'g');
    assert("nodamage"@[0] == 'n');
    assert("h"@[0] == 'h');
    assert("v"@[0] == 'v');
}

/// An option is known by its own name, and by no other; in messages it is called by it.
pub proof fn law_options_go_by_their_names(o: Opt, name: Seq<char>)
    ensures
        opt_named(name) == Some(o) <==> name == (match o {
            Opt::Display => "display"@,
            Opt::Displayfd => "displayfd"@,
            Opt::Screen => "screen"@,
            Opt::Clipboard => "clipboard"@,
            Opt::Cursor => "cursor"@,
            Opt::Seat => "seat"@,
            Opt::Geometry => "geometry"@,
            Opt::Fps => "fps"@,
            Opt::Nodamage => "nodamage"@,
            Opt::Noprimary => "noprimary"@,
            Opt::Nowrap => "nowrap"@,
            Opt::Profile => "profile"@,
            Opt::Xtrace => "xtrace"@,
            Opt::Quiet => "quiet"@,
            Opt::Verbose => "verbose"@,
            Opt::Dynres => "dynres"@,
            Opt::Outmgr => "outmgr"@,
            Opt::Pwrmgr => "pwrmgr"@,
            Opt::Cliptrace => "cliptrace"@,
        }),
        opt_named(name) == Some(o) ==> o.text() == name,
{
    lemma_option_names();
}

/// A flag sets its own switch and nothing else.
pub proof fn law_flags_set_their_own_switch(c: ConfigView, argv: Seq<Option<Seq<char>>>, i: int, s: Seq<char>)
    requires
        0 <= i < argv.len(),
        argv[i] == Some(s),
        s != "--"@,
        s.len() >= 2,
        s[0] == '-',
    ensures
        ({
            let name = split_option(s).0;
            let r = parse_from(c, argv, i);
            &&& name == "nodamage"@ ==> r == parse_from(ConfigView { nodamage: true, ..c }, argv, i + 1)
            &&& name == "noprimary"@ ==> r == parse_from(ConfigView { noprimary: true, ..c }, argv, i + 1)
            &&& name == "nowrap"@ ==> r == parse_from(ConfigView { nowrap: true, ..c }, argv, i + 1)
            &&& name == "profile"@ ==> r == parse_from(ConfigView { profile: true, ..c }, argv, i + 1)
            &&& name == "xtrace"@ ==> r == parse_from(ConfigView { xtrace: true, ..c }, argv, i + 1)
            &&& name == "quiet"@ ==> r == parse_from(ConfigView { quiet: true, ..c }, argv, i + 1)
            &&& name == "verbose"@ ==> r == parse_from(ConfigView { verbose: true, ..c }, argv, i + 1)
            &&& name == "dynres"@ ==> r == parse_from(ConfigView { dynres: true, ..c }, argv, i + 1)
            &&& name == "cliptrace"@ ==> r == parse_from(ConfigView { cliptrace: true, ..c }, argv, i + 1)
        }),
{
    let name = split_option(s).0;
    lemma_option_names();
    if opt_named(name) is Some {
        lemma_not_help(name);
    }
}

/// A value sets its own option and nothing else: numbers, a seat's name, and a size.
pub proof fn law_values_set_their_own_option(c: ConfigView, v: Seq<char>, n: int, w: int, h: int)
    ensures
        ({
            let number = list::number_of(v, u32::MAX as int) == Some(n);
            let size = geometry::geometry_of(v) == Ok::<(int, int), GeometryError>((w, h));
            &&& number ==> c.valued(Opt::Display, v) == Some(ConfigView { display: Some(n as u32), ..c })
            &&& number ==> c.valued(Opt::Displayfd, v) == Some(ConfigView { displayfd: Some(n as u32), ..c })
            &&& number ==> c.valued(Opt::Fps, v) == Some(ConfigView { fps: Some(n as u32), ..c })
            &&& c.valued(Opt::Seat, v) == Some(ConfigView { seat: Some(v), ..c })
            &&& size ==> c.valued(Opt::Geometry, v) == Some(
                ConfigView { geometry: Some(Geometry { width: w as u16, height: h as u16 }), ..c },
            )
        }),
        list::number_of(v, u32::MAX as int) is None ==> c.valued(Opt::Display, v) is None && c.valued(Opt::Displayfd, v)
            is None && c.valued(Opt::Fps, v) is None,
        geometry::geometry_of(v) is Err ==> c.valued(Opt::Geometry, v) is None,
{
}

/// A value that stands with its option is taken for it, and one that is none for it ends
/// the reading.
pub proof fn law_inline_values_are_taken(c: ConfigView, argv: Seq<Option<Seq<char>>>, i: int, o: Opt, v: Seq<char>)
    requires
        0 <= i < argv.len(),
        argv[i] is Some,
        ({
            let s = argv[i]->0;
            &&& s != "--"@ && s.len() >= 2 && s[0] == '-'
            &&& split_option(s).1 == Some(v)
            &&& opt_named(split_option(s).0) == Some(o)
        }),
        !is_flag(o),
    ensures
        parse_from(c, argv, i) == (match c.valued(o, v) {
            Some(d) => parse_from(d, argv, i + 1),
            None => ParsedView::Invalid(o, v),
        }),
{
    lemma_not_help(split_option(argv[i]->0).0);
}

proof fn lemma_choice_names()
    ensures
        "auto"@ != "none"@,
        "auto"@ != "screencopy"@,
        "auto"@ != "imagecopy"@,
        "auto"@ != "wlr"@,
        "auto"@ != "ext"@,
        "none"@ != "screencopy"@,
        "none"@ != "imagecopy"@,
        "none"@ != "wlr"@,
        "none"@ != "ext"@,
        "screencopy"@ != "imagecopy"@,
        "screencopy"@ != "wlr"@,
        "screencopy"@ != "ext"@,
        "imagecopy"@ != "wlr"@,
        "imagecopy"@ != "ext"@,
        "wlr"@ != "ext"@,
{
    reveal_strlit("auto");
    assert("auto"@.len() == 4);
    reveal_strlit("none");
    assert("none"@.len() == 4);
    reveal_strlit("screencopy");
    assert("screencopy"@.len() == 10);
    reveal_strlit("imagecopy");
    assert("imagecopy"@.len() == 9);
    reveal_strlit("wlr");
    assert("wlr"@.len() == 3);
    reveal_strlit("ext");
    assert("ext"@.len() == 3);
    assert("auto"@[0] == 'a');
    assert("none"@[0] == 'n');
    assert("wlr"@[0] == 'w');
    assert("ext"@[0] == 'e');
}

/// A choice of `-screen` is what it is called, in whatever case it is written, and sets
/// nothing else; any other text is none.
pub proof fn law_screen_choices_are_what_they_are_called(c: ConfigView, v: Seq<char>)
    ensures
        ({
            let l = args::lowered(v);
            &&& l == "auto"@ ==> c.valued(Opt::Screen, v) == Some(ConfigView { screen: ScreenType::Auto, ..c })
            &&& l == "none"@ ==> c.valued(Opt::Screen, v) == Some(ConfigView { screen: ScreenType::Off, ..c })
            &&& l == "screencopy"@ ==> c.valued(Opt::Screen, v) == Some(ConfigView { screen: ScreenType::Screencopy, ..c })
            &&& l == "imagecopy"@ ==> c.valued(Opt::Screen, v) == Some(ConfigView { screen: ScreenType::Imagecopy, ..c })
            &&& l != "auto"@ && l != "none"@ && l != "screencopy"@ && l != "imagecopy"@ ==> c.valued(Opt::Screen, v) is None
        }),
{
    lemma_choice_names();
}

/// A choice of `-clipboard` is what it is called, in whatever case it is written, and sets
/// nothing else; any other text is none.
pub proof fn law_clipboard_choices_are_what_they_are_called(c: ConfigView, v: Seq<char>)
    ensures
        ({
            let l = args::lowered(v);
            &&& l == "auto"@ ==> c.valued(Opt::Clipboard, v) == Some(ConfigView { clipboard: ClipboardType::Auto, ..c })
            &&& l == "none"@ ==> c.valued(Opt::Clipboard, v) == Some(ConfigView { clipboard: ClipboardType::Off, ..c })
            &&& l == "wlr"@ ==> c.valued(Opt::Clipboard, v) == Some(ConfigView { clipboard: ClipboardType::Wlr, ..c })
            &&& l == "ext"@ ==> c.valued(Opt::Clipboard, v) == Some(ConfigView { clipboard: ClipboardType::Ext, ..c })
            &&& l != "auto"@ && l != "none"@ && l != "wlr"@ && l != "ext"@ ==> c.valued(Opt::Clipboard, v) is None
        }),
{
    lemma_choice_names();
}

/// A choice of `-cursor` is what it is called, in whatever case it is written, and sets
/// nothing else; any other text is none.
pub proof fn law_cursor_choices_are_what_they_are_called(c: ConfigView, v: Seq<char>)
    ensures
        ({
            let l = args::lowered(v);
            &&& l == "auto"@ ==> c.valued(Opt::Cursor, v) == Some(ConfigView { cursor: CursorType::Auto, ..c })
            &&& l == "none"@ ==> c.valued(Opt::Cursor, v) == Some(ConfigView { cursor: CursorType::Baked, ..c })
            &&& l != "auto"@ && l != "none"@ ==> c.valued(Opt::Cursor, v) is None
        }),
{
    lemma_choice_names();
}

/// A choice of `-outmgr` is what it is called, in whatever case it is written, and sets
/// nothing else; any other text is none.
pub proof fn law_outmgr_choices_are_what_they_are_called(c: ConfigView, v: Seq<char>)
    ensures
        ({
            let l = args::lowered(v);
            &&& l == "auto"@ ==> c.valued(Opt::Outmgr, v) == Some(ConfigView { outmgr: OutMgrType::Auto, ..c })
            &&& l == "none"@ ==> c.valued(Opt::Outmgr, v) == Some(ConfigView { outmgr: OutMgrType::Off, ..c })
            &&& l == "wlr"@ ==> c.valued(Opt::Outmgr, v) == Some(ConfigView { outmgr: OutMgrType::Wlr, ..c })
            &&& l != "auto"@ && l != "none"@ && l != "wlr"@ ==> c.valued(Opt::Outmgr, v) is None
        }),
{
    lemma_choice_names();
}

/// A choice of `-pwrmgr` is what it is called, in whatever case it is written, and sets
/// nothing else; any other text is none.
pub proof fn law_pwrmgr_choices_are_what_they_are_called(c: ConfigView, v: Seq<char>)
    ensures
        ({
            let l = args::lowered(v);
            &&& l == "auto"@ ==> c.valued(Opt::Pwrmgr, v) == Some(ConfigView { pwrmgr: PwrMgrType::Auto, ..c })
            &&& l == "none"@ ==> c.valued(Opt::Pwrmgr, v) == Some(ConfigView { pwrmgr: PwrMgrType::Off, ..c })
            &&& l == "wlr"@ ==> c.valued(Opt::Pwrmgr, v) == Some(ConfigView { pwrmgr: PwrMgrType::Wlr, ..c })
            &&& l != "auto"@ && l != "none"@ && l != "wlr"@ ==> c.valued(Opt::Pwrmgr, v) is None
        }),
{
    lemma_choice_names();
}

/// An option's name is what stands between its dash and its `=`, in lower case, and its
/// value what stands behind that.
pub proof fn law_values_stand_behind_the_equals_sign(name: Seq<char>, v: Seq<char>)
    requires
        forall|i: int| 0 <= i < name.len() ==> #[trigger] name[i] != '=',
    ensures
        split_option(seq!['-'] + name + seq!['='] + v) == (args::lowered(name), Some(v)),
        split_option(seq!['-'] + name) == (args::lowered(name), None::<Seq<char>>),
{
    let s = seq!['-'] + name + seq!['='] + v;
    let b = s.skip(1);
    let n = name.len() as int;
    assert(b =~= name + seq!['='] + v);
    assert forall|j: int| 0 <= j < n implies !is_equals()(#[trigger] b[j]) by {
        assert(b[j] == name[j]);
    }
    list::lemma_first_index_is(b, is_equals(), n);
    assert(b.take(n) =~= name);
    assert(b.skip(n + 1) =~= v);
    let t = (seq!['-'] + name).skip(1);
    assert(t =~= name);
    assert forall|j: int| 0 <= j < t.len() implies !is_equals()(#[trigger] t[j]) by {
        assert(name[j] != '=');
    }
    list::lemma_first_index_none(t, is_equals());
}

/// Without options everything is chosen automatically and nothing is switched on.
pub proof fn law_defaults()
    ensures
        ({
            let c = ConfigView::initial();
            &&& c.screen is Auto && c.clipboard is Auto && c.cursor is Auto && c.outmgr is Auto && c.pwrmgr is Auto
            &&& !c.nodamage && !c.noprimary && !c.nowrap && !c.profile && !c.xtrace && !c.quiet && !c.verbose && !c.dynres
                && !c.cliptrace
            &&& c.display is None && c.displayfd is None && c.fps is None && c.geometry is None
            &&& c.seat_choice() is First
        }),
{
}

/// The command is what follows the options: the first argument that is none begins it.
pub proof fn law_first_plain_argument_begins_the_command(c: ConfigView, argv: Seq<Option<Seq<char>>>, i: int, s: Seq<char>)
    requires
        0 <= i < argv.len(),
        argv[i] == Some(s),
        s.len() == 0 || s[0] != '-' || s == seq!['-'],
    ensures
        parse_from(c, argv, i) == ParsedView::Ready(c, i),
{
    reveal_strlit("--");
}

} // verus!
