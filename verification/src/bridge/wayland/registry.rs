//! Which globals are bound, and at which version.
//!
//! Globals show up in any order, so each is bound as it comes, and what needs it looks
//! whether everything else it needs is there.

use crate::config::{ClipboardType, Config, ConfigView, ScreenType, SeatChoice};
use crate::util::args;
use crate::util::list;
use vstd::prelude::*;

verus! {

/// A global that is bound.
#[derive(Clone, Copy, PartialEq, Eq, Structural, Debug)]
pub enum Global {
    Output,
    XdgOutputManager,
    Shm,
    ExtSourceManager,
    ExtCaptureManager,
    ScreencopyManager,
    Seat,
    ExtDataControlManager,
    WlrDataControlManager,
    VirtualPointerManager,
    OutputManager,
    OutputPowerManager,
    TransientSeatManager,
    VirtualKeyboardManager,
}

impl Global {
    /// The newest version that is known.
    pub open spec fn newest(self) -> u32 {
        match self {
            Global::Output => 4,
            Global::XdgOutputManager => 3,
            Global::Shm => 1,
            Global::ExtSourceManager => 1,
            Global::ExtCaptureManager => 1,
            Global::ScreencopyManager => 3,
            Global::Seat => 9,
            Global::ExtDataControlManager => 1,
            Global::WlrDataControlManager => 2,
            Global::VirtualPointerManager => 2,
            Global::OutputManager => 4,
            Global::OutputPowerManager => 1,
            Global::TransientSeatManager => 1,
            Global::VirtualKeyboardManager => 1,
        }
    }

    /// The newest version that is known.
    pub fn max_version(self) -> (v: u32)
        ensures
            v == self.newest(),
    {
        match self {
            Global::Output => 4,
            Global::XdgOutputManager => 3,
            Global::Shm => 1,
            Global::ExtSourceManager => 1,
            Global::ExtCaptureManager => 1,
            Global::ScreencopyManager => 3,
            Global::Seat => 9,
            Global::ExtDataControlManager => 1,
            Global::WlrDataControlManager => 2,
            Global::VirtualPointerManager => 2,
            Global::OutputManager => 4,
            Global::OutputPowerManager => 1,
            Global::TransientSeatManager => 1,
            Global::VirtualKeyboardManager => 1,
        }
    }

    /// The version to bind: the compositor's, capped at the one that is known.
    pub fn version(self, offered: u32) -> (v: u32)
        ensures
            v == (if offered < self.newest() {
                offered
            } else {
                self.newest()
            }),
    {
        let max: u32 = self.max_version();
        if offered < max {
            offered
        } else {
            max
        }
    }

    /// The options leave it to be used.
    pub open spec fn wanted(self, c: ConfigView) -> bool {
        match self {
            Global::ExtSourceManager | Global::ExtCaptureManager => c.screen is Auto || c.screen is Imagecopy,
            Global::ScreencopyManager => c.screen is Auto || c.screen is Screencopy,
            Global::ExtDataControlManager => c.clipboard is Auto || c.clipboard is Ext,
            Global::WlrDataControlManager => c.clipboard is Auto || c.clipboard is Wlr,
            Global::OutputManager => c.dynres && (c.outmgr is Auto || c.outmgr is Wlr),
            Global::OutputPowerManager => c.pwrmgr is Auto || c.pwrmgr is Wlr,
            Global::TransientSeatManager => c.seat_choice() is Transient,
            _ => true,
        }
    }

    /// Whether the options leave it to be used.
    pub fn is_wanted(self, config: &Config) -> (b: bool)
        ensures
            b == self.wanted(config@),
    {
        match self {
            Global::ExtSourceManager | Global::ExtCaptureManager => config.screen.wants_imagecopy(),
            Global::ScreencopyManager => config.screen.wants_screencopy(),
            Global::ExtDataControlManager => config.clipboard.wants_ext(),
            Global::WlrDataControlManager => config.clipboard.wants_wlr(),
            Global::OutputManager => config.outmgr_wants_wlr(),
            Global::OutputPowerManager => config.pwrmgr.wants_wlr(),
            Global::TransientSeatManager => match config.seat_choice() {
                SeatChoice::Transient => true,
                _ => false,
            },
            _ => true,
        }
    }
}

/// The global of an interface.
pub open spec fn known(interface: Seq<char>) -> Option<Global> {
    if interface == "wl_output"@ {
        Some(Global::Output)
    } else if interface == "zxdg_output_manager_v1"@ {
        Some(Global::XdgOutputManager)
    } else if interface == "wl_shm"@ {
        Some(Global::Shm)
    } else if interface == "ext_output_image_capture_source_manager_v1"@ {
        Some(Global::ExtSourceManager)
    } else if interface == "ext_image_copy_capture_manager_v1"@ {
        Some(Global::ExtCaptureManager)
    } else if interface == "zwlr_screencopy_manager_v1"@ {
        Some(Global::ScreencopyManager)
    } else if interface == "wl_seat"@ {
        Some(Global::Seat)
    } else if interface == "ext_data_control_manager_v1"@ {
        Some(Global::ExtDataControlManager)
    } else if interface == "zwlr_data_control_manager_v1"@ {
        Some(Global::WlrDataControlManager)
    } else if interface == "zwlr_virtual_pointer_manager_v1"@ {
        Some(Global::VirtualPointerManager)
    } else if interface == "zwlr_output_manager_v1"@ {
        Some(Global::OutputManager)
    } else if interface == "zwlr_output_power_manager_v1"@ {
        Some(Global::OutputPowerManager)
    } else if interface == "ext_transient_seat_manager_v1"@ {
        Some(Global::TransientSeatManager)
    } else if interface == "zwp_virtual_keyboard_manager_v1"@ {
        Some(Global::VirtualKeyboardManager)
    } else {
        None
    }
}

/// The global of an interface.
pub fn global(interface: &str) -> (g: Option<Global>)
    ensures
        g == known(interface@),
{
    let v = list::chars(interface);
    if args::is_text(&v, "wl_output") {
        Some(Global::Output)
    } else if args::is_text(&v, "zxdg_output_manager_v1") {
        Some(Global::XdgOutputManager)
    } else if args::is_text(&v, "wl_shm") {
        Some(Global::Shm)
    } else if args::is_text(&v, "ext_output_image_capture_source_manager_v1") {
        Some(Global::ExtSourceManager)
    } else if args::is_text(&v, "ext_image_copy_capture_manager_v1") {
        Some(Global::ExtCaptureManager)
    } else if args::is_text(&v, "zwlr_screencopy_manager_v1") {
        Some(Global::ScreencopyManager)
    } else if args::is_text(&v, "wl_seat") {
        Some(Global::Seat)
    } else if args::is_text(&v, "ext_data_control_manager_v1") {
        Some(Global::ExtDataControlManager)
    } else if args::is_text(&v, "zwlr_data_control_manager_v1") {
        Some(Global::WlrDataControlManager)
    } else if args::is_text(&v, "zwlr_virtual_pointer_manager_v1") {
        Some(Global::VirtualPointerManager)
    } else if args::is_text(&v, "zwlr_output_manager_v1") {
        Some(Global::OutputManager)
    } else if args::is_text(&v, "zwlr_output_power_manager_v1") {
        Some(Global::OutputPowerManager)
    } else if args::is_text(&v, "ext_transient_seat_manager_v1") {
        Some(Global::TransientSeatManager)
    } else if args::is_text(&v, "zwp_virtual_keyboard_manager_v1") {
        Some(Global::VirtualKeyboardManager)
    } else {
        None
    }
}

/// What to bind when a global is announced, and at which version.
pub fn announced(config: &Config, interface: &str, version: u32) -> (r: Option<(Global, u32)>)
    ensures
        r == (match known(interface@) {
            Some(g) if g.wanted(config@) => Some(
                (
                    g,
                    if version < g.newest() {
                        version
                    } else {
                        g.newest()
                    },
                ),
            ),
            _ => None,
        }),
{
    match global(interface) {
        Some(g) => {
            if g.is_wanted(config) {
                Some((g, g.version(version)))
            } else {
                None
            }
        },
        None => None,
    }
}

/// Without options everything is bound but what is asked for by one.
pub proof fn law_defaults_bind_what_they_can(c: ConfigView, g: Global)
    requires
        c.screen is Auto,
        c.clipboard is Auto,
        c.pwrmgr is Auto,
        !c.dynres,
        c.seat is None,
    ensures
        g.wanted(c) <==> !(g is OutputManager) && !(g is TransientSeatManager),
{
}

/// A global is known by the name of its interface, and by no other.
pub proof fn law_globals_go_by_their_interface(g: Global, interface: Seq<char>)
    ensures
        known(interface) == Some(g) <==> interface == (match g {
            Global::Output => "wl_output"@,
            Global::XdgOutputManager => "zxdg_output_manager_v1"@,
            Global::Shm => "wl_shm"@,
            Global::ExtSourceManager => "ext_output_image_capture_source_manager_v1"@,
            Global::ExtCaptureManager => "ext_image_copy_capture_manager_v1"@,
            Global::ScreencopyManager => "zwlr_screencopy_manager_v1"@,
            Global::Seat => "wl_seat"@,
            Global::ExtDataControlManager => "ext_data_control_manager_v1"@,
            Global::WlrDataControlManager => "zwlr_data_control_manager_v1"@,
            Global::VirtualPointerManager => "zwlr_virtual_pointer_manager_v1"@,
            Global::OutputManager => "zwlr_output_manager_v1"@,
            Global::OutputPowerManager => "zwlr_output_power_manager_v1"@,
            Global::TransientSeatManager => "ext_transient_seat_manager_v1"@,
            Global::VirtualKeyboardManager => "zwp_virtual_keyboard_manager_v1"@,
        }),
{
    reveal_strlit("wl_output");
    assert("wl_output"@.len() == 9);
    reveal_strlit("zxdg_output_manager_v1");
    assert("zxdg_output_manager_v1"@.len() == 22);
    reveal_strlit("wl_shm");
    assert("wl_shm"@.len() == 6);
    reveal_strlit("ext_output_image_capture_source_manager_v1");
    assert("ext_output_image_capture_source_manager_v1"@.len() == 42);
    reveal_strlit("ext_image_copy_capture_manager_v1");
    assert("ext_image_copy_capture_manager_v1"@.len() == 33);
    reveal_strlit("zwlr_screencopy_manager_v1");
    assert("zwlr_screencopy_manager_v1"@.len() == 26);
    reveal_strlit("wl_seat");
    assert("wl_seat"@.len() == 7);
    reveal_strlit("ext_data_control_manager_v1");
    assert("ext_data_control_manager_v1"@.len() == 27);
    reveal_strlit("zwlr_data_control_manager_v1");
    assert("zwlr_data_control_manager_v1"@.len() == 28);
    reveal_strlit("zwlr_virtual_pointer_manager_v1");
    assert("zwlr_virtual_pointer_manager_v1"@.len() == 31);
    reveal_strlit("zwlr_output_manager_v1");
    assert("zwlr_output_manager_v1"@.len() == 22);
    reveal_strlit("zwlr_output_power_manager_v1");
    assert("zwlr_output_power_manager_v1"@.len() == 28);
    reveal_strlit("ext_transient_seat_manager_v1");
    assert("ext_transient_seat_manager_v1"@.len() == 29);
    reveal_strlit("zwp_virtual_keyboard_manager_v1");
    assert("zwp_virtual_keyboard_manager_v1"@.len() == 31);
    assert("zxdg_output_manager_v1"@[1] == 'x');
    assert("zwlr_output_manager_v1"@[1] == 'w');
    assert("zwlr_data_control_manager_v1"@[5] == 'd');
    assert("zwlr_output_power_manager_v1"@[5] == 'o');
    assert("zwlr_virtual_pointer_manager_v1"@[2] == 'l');
    assert("zwp_virtual_keyboard_manager_v1"@[2] == 'p');
}

/// What is bound is what was announced, at a version that both sides know: the
/// compositor's, where it is not newer than ours.
pub proof fn law_bound_version_is_known_to_both(
    config: &Config,
    interface: &str,
    version: u32,
    r: Option<(Global, u32)>,
)
    requires
        call_ensures(announced, (config, interface, version), r),
    ensures
        r matches Some((g, v)) ==> known(interface@) == Some(g) && v <= version && v <= g.newest() && (version
            <= g.newest() ==> v == version) && (v == version || v == g.newest()),
{
}

/// A protocol that was chosen is used, and the others for the same purpose are not; with
/// none chosen any of them is, and with `none` no one.
pub proof fn law_chosen_protocol_is_the_one_used(c: ConfigView)
    ensures
        Global::ScreencopyManager.wanted(c) <==> c.screen == ScreenType::Auto || c.screen == ScreenType::Screencopy,
        Global::ExtCaptureManager.wanted(c) <==> c.screen == ScreenType::Auto || c.screen == ScreenType::Imagecopy,
        Global::ExtSourceManager.wanted(c) <==> Global::ExtCaptureManager.wanted(c),
        Global::WlrDataControlManager.wanted(c) <==> c.clipboard == ClipboardType::Auto || c.clipboard
            == ClipboardType::Wlr,
        Global::ExtDataControlManager.wanted(c) <==> c.clipboard == ClipboardType::Auto || c.clipboard
            == ClipboardType::Ext,
        Global::OutputManager.wanted(c) ==> c.dynres && !(c.outmgr is Off),
        Global::OutputPowerManager.wanted(c) <==> !(c.pwrmgr is Off),
        Global::TransientSeatManager.wanted(c) <==> c.seat == Some("transient"@),
        Global::Output.wanted(c) && Global::Seat.wanted(c) && Global::Shm.wanted(c) && Global::XdgOutputManager.wanted(c)
            && Global::VirtualPointerManager.wanted(c) && Global::VirtualKeyboardManager.wanted(c),
{
}

} // verus!
