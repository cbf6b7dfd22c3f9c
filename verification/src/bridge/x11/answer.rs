//! The answers to the requests that change nothing.

use crate::bridge::clipboard::{OwnerView, Sel, OWNER_WINDOW};
use crate::bridge::cursor::CursorView;
use crate::bridge::keymap;
use crate::bridge::server;
use crate::bridge::server::{Server, ServerView};
use crate::bridge::x11::atom;
use crate::bridge::x11::atom::XA_PRIMARY;
use crate::bridge::x11::conn::{ConnView, Connection};
use crate::bridge::x11::ext;
use crate::bridge::x11::ext::ExtView;
use crate::bridge::x11::randr;
use crate::bridge::x11::randr::{ModeInfo, ModeView, OutputView, ScreenView};
use crate::bridge::x11::reply;
use crate::bridge::x11::reply::Resources;
use crate::bridge::x11::request::Ask;
use crate::bridge::x11::targets;
use crate::bridge::x11::wire;
use crate::bridge::x11::xfixes;
use crate::util::geometry;
use crate::util::geometry::Rectangle;
use crate::util::list;
use vstd::prelude::*;
use vstd::utf8::*;

verus! {

/// The selection that an atom names, if it is bridged. With `-noprimary`, PRIMARY is an
/// unknown selection, so that it is neither fetched from nor offered to Wayland.
pub open spec fn bridged(s: ServerView, selection: u32) -> Option<Sel> {
    if selection == XA_PRIMARY || atom::name_of(s.atoms, selection) == Some(targets::bytes_of("PRIMARY"@)) {
        if s.config.noprimary {
            None
        } else {
            Some(Sel::Primary)
        }
    } else if atom::name_of(s.atoms, selection) == Some(server::clipboard_name()) {
        Some(Sel::Clipboard)
    } else {
        None
    }
}

/// The owner of a selection, 0 if there is none: that of the server for a bridged
/// selection (Wayland can revoke it), else that of the connection.
pub open spec fn owner_of(c: ConnView, s: ServerView, selection: u32) -> u32 {
    match bridged(s, selection) {
        Some(sel) => match s.clipboard.sel(sel).owner.window() {
            Some(w) => w,
            None => 0,
        },
        None => if c.selection.owners.dom().contains(selection) {
            c.selection.owners[selection].window
        } else {
            0
        },
    }
}

/// Extensions that are offered, without DAMAGE where it is disabled so that clients
/// fall back to polling.
pub open spec fn shown(damage: bool) -> spec_fn(ExtView) -> bool {
    |e: ExtView| damage || e.name != "DAMAGE"@
}

/// The names of the extensions.
pub open spec fn extension_names(damage: bool) -> Seq<Seq<u8>> {
    list::only(ext::offered(), shown(damage)).map_values(|e: ExtView| targets::bytes_of(e.name))
}

/// The reply to `QueryExtension`.
pub open spec fn extension_reply(damage: bool, name: Seq<u8>) -> Seq<u8> {
    match list::first_index(ext::offered(), ext::named(name)) {
        Some(i) if shown(damage)(ext::offered()[i]) => {
            let e = ext::offered()[i];
            reply::extension_bytes(true, e.major_opcode, e.first_event, e.first_error)
        },
        _ => reply::extension_bytes(false, 0, 0, 0),
    }
}

/// The modifier map (2 keycodes per modifier) served until the compositor keymap is
/// known, from which the real one is derived: the pc105 layout, using our X keycodes (=
/// evdev code + 8): Shift, Lock, Control, Mod1(Alt), Mod2(Num), Mod3, Mod4(Super), Mod5.
pub open spec fn default_modifier_map() -> Seq<u8> {
    seq![50u8, 62, 66, 0, 37, 105, 64, 108, 77, 0, 0, 0, 133, 134, 0, 0]
}

/// The reply to `GetKeyboardMapping`: one NoSymbol per keycode until the compositor
/// keymap is known.
pub open spec fn keyboard_mapping(s: ServerView, first_keycode: u8, count: u8) -> Seq<u8> {
    match s.keymap {
        Some((syms, _)) => reply::keyboard_bytes(keymap::SYMS_PER, keymap::slice_of(syms, first_keycode, count)),
        None => reply::keyboard_bytes(1, Seq::new(count as nat, |i: int| 0u32)),
    }
}

/// The reply to `GetModifierMapping`.
pub open spec fn modifier_mapping(s: ServerView) -> Option<Seq<u8>> {
    let keycodes = match s.keymap {
        Some((_, modmap)) => modmap,
        None => default_modifier_map(),
    };
    if keycodes.len() % 8 == 0 && keycodes.len() / 8 <= 255 {
        Some(reply::modifiers_bytes(keycodes))
    } else {
        None
    }
}

/// The reply to `GetScreenResources`.
pub open spec fn resources(s: ScreenView) -> Option<Seq<u8>> {
    let crtcs = s.outputs.map_values(|o: OutputView| o.crtc_id);
    let outputs = s.outputs.map_values(|o: OutputView| o.output_id);
    let infos = s.modes.map_values(|m: ModeView| m.info);
    let names = randr::names_of(s.modes);
    if s.outputs.len() <= 0xffff && s.modes.len() <= 0xffff && names.len() <= 0xffff {
        Some(reply::resources_bytes(s.timestamp, s.config_timestamp, crtcs, outputs, infos, names))
    } else {
        None
    }
}

/// The reply to `GetOutputInfo`.
pub open spec fn output_info(s: ScreenView, output: u32) -> Option<Seq<u8>> {
    match s.find(randr::output_is(output)) {
        Some(o) => if o.mode_ids.len() <= 0xffff && o.name.len() <= 0xffff {
            Some(
                reply::output_info_bytes(
                    s.timestamp,
                    if o.mode != 0 {
                        o.crtc_id
                    } else {
                        0
                    },
                    o.mm_width,
                    o.mm_height,
                    o.connected,
                    o.crtc_id,
                    o.mode_ids,
                    o.name,
                ),
            )
        } else {
            None
        },
        None => Some(reply::empty_output_info_bytes(s.timestamp)),
    }
}

/// The reply to `GetCrtcInfo`.
pub open spec fn crtc_info(s: ScreenView, crtc: u32) -> Seq<u8> {
    match s.find(randr::crtc_is(crtc)) {
        Some(o) => reply::crtc_info_bytes(s.timestamp, o.x, o.y, o.width, o.height, o.mode, o.output_id),
        None => reply::empty_crtc_info_bytes(s.timestamp),
    }
}

/// The reply to `GetCursorImage`: one transparent pixel until an image is known.
pub open spec fn cursor_image(c: CursorView) -> Option<Seq<u8>> {
    if c.serial == 0 {
        Some(reply::cursor_bytes(c.x, c.y, 1, 1, c.xhot, c.yhot, 1, seq![0u32]))
    } else if c.image.len() == c.width * c.height {
        Some(reply::cursor_bytes(c.x, c.y, c.width, c.height, c.xhot, c.yhot, c.serial, c.image))
    } else {
        None
    }
}

/// The reply to `FetchRegion`.
pub open spec fn fetched_region(rects: Seq<Rectangle>) -> Option<Seq<u8>> {
    let extents = xfixes::extents_of(rects);
    if rects.len() > 0x7fff_ffff {
        None
    } else if extents.len() > 0 {
        Some(reply::region_bytes(extents[0], rects))
    } else {
        Some(reply::region_bytes(Rectangle { x: 0, y: 0, width: 0, height: 0 }, rects))
    }
}

/// The reply to a request that changes nothing. `None` where what it would say cannot be
/// put on the wire.
#[verifier::opaque]
pub open spec fn answer(c: ConnView, s: ServerView, ask: Ask) -> Option<Seq<u8>> {
    match ask {
        Ask::GetAtomName { atom } => match atom::name_of(s.atoms, atom) {
            Some(n) => if n.len() <= 0xffff {
                Some(reply::name_bytes(n))
            } else {
                None
            },
            None => Some(reply::name_bytes(Seq::empty())),
        },
        Ask::ListExtensions => Some(reply::list_bytes(extension_names(!s.config.nodamage))),
        Ask::GetSelectionOwner { selection } => Some(reply::word_bytes(owner_of(c, s, selection))),
        Ask::GetGeometry => Some(reply::geometry_bytes(s.screen.width, s.screen.height)),
        Ask::QueryPointer => Some(reply::pointer_bytes(s.cursor.x, s.cursor.y)),
        Ask::GetKeyboardMapping { first_keycode, count } => Some(keyboard_mapping(s, first_keycode, count)),
        Ask::GetModifierMapping => modifier_mapping(s),
        Ask::RandrGetScreenResources => resources(s.screen),
        Ask::RandrGetScreenInfo => Some(
            reply::screen_info_bytes(s.screen.timestamp, s.screen.config_timestamp, s.screen.width, s.screen.height),
        ),
        Ask::RandrGetOutputInfo { output } => output_info(s.screen, output),
        Ask::RandrGetCrtcInfo { crtc } => Some(crtc_info(s.screen, crtc)),
        Ask::RandrGetPanning => Some(reply::bare_timestamp_bytes(s.screen.timestamp, 24)),
        Ask::RandrGetOutputPrimary => Some(
            reply::word_bytes(
                if s.screen.outputs.len() > 0 {
                    s.screen.outputs[0].output_id
                } else {
                    0
                },
            ),
        ),
        Ask::RandrGetProviders => Some(reply::bare_timestamp_bytes(s.screen.timestamp, 20)),
        Ask::RandrGetMonitors => Some(reply::bare_timestamp_bytes(s.screen.timestamp, 20)),
        Ask::XfixesGetCursorImage | Ask::XfixesGetCursorImageAndName => cursor_image(s.cursor),
        Ask::XfixesFetchRegion { region } => fetched_region(xfixes::region(c.regions, region)),
        _ => reply::fixed_bytes(ask),
    }
}

/// Maps an X selection atom to the Wayland selection it bridges.
pub fn selection_kind(server: &Server, selection: u32) -> (k: Option<Sel>)
    ensures
        k == bridged(server@, selection),
{
    let (primary, clipboard): (bool, bool) = match server.atoms.name(selection) {
        Some(n) => (
            list::same_bytes(n, "PRIMARY".as_bytes()),
            list::same_bytes(n, "CLIPBOARD".as_bytes()),
        ),
        None => (false, false),
    };
    if selection == XA_PRIMARY || primary {
        if server.config.noprimary {
            None
        } else {
            Some(Sel::Primary)
        }
    } else if clipboard {
        Some(Sel::Clipboard)
    } else {
        None
    }
}

fn current_owner(conn: &Connection, server: &Server, selection: u32) -> (w: u32)
    ensures
        w == owner_of(conn@, server@, selection),
{
    let owner = match selection_kind(server, selection) {
        Some(sel) => server.clipboard.owner_window(sel),
        None => conn.selection.owner(selection),
    };
    match owner {
        Some(w) => w,
        None => 0,
    }
}

fn list_extensions(damage: bool) -> (v: Vec<u8>)
    ensures
        v@ == reply::list_bytes(extension_names(damage)),
{
    let all = ext::extensions();
    let ghost av = ext::offered();
    let mut names: Vec<Vec<u8>> = Vec::new();
    let mut i: usize = 0;
    assert(all@.len() == all.0@.len());
    assert(av.take(0) =~= Seq::empty());
    assert(list::only(av.take(0), shown(damage)) =~= Seq::empty());
    while i < all.0.len()
        invariant
            i <= all.0.len(),
            av == ext::offered(),
            all@ == av,
            all.0@.len() == 6,
            names@.len() <= i,
            forall|j: int| 0 <= j < names@.len() ==> (#[trigger] names@[j])@.len() <= 255,
            reply::string_views(names@) == list::only(av.take(i as int), shown(damage)).map_values(
                |e: ExtView| targets::bytes_of(e.name),
            ),
        decreases all.0.len() - i,
    {
        let name = all.0[i].name;
        let ghost e = all.0@[i as int]@;
        let ghost n0 = names@;
        proof {
            lemma_names_differ(i as int);
            lemma_names_are_short(i as int);
        }
        assert(e == av[i as int]);
        assert(av.take(i as int + 1).drop_last() =~= av.take(i as int));
        if damage || !list::same_bytes(name.as_bytes(), "DAMAGE".as_bytes()) {
            names.push(list::copy_bytes(name.as_bytes()));
            assert(reply::string_views(names@) =~= reply::string_views(n0).push(targets::bytes_of(e.name)));
        }
        proof {
            let before = list::only(av.take(i as int), shown(damage));
            assert(list::only(av.take(i as int + 1), shown(damage)) == if shown(damage)(e) {
                before.push(e)
            } else {
                before
            });
            assert(before.push(e).map_values(|e: ExtView| targets::bytes_of(e.name)) =~= before.map_values(
                |e: ExtView| targets::bytes_of(e.name),
            ).push(targets::bytes_of(e.name)));
            assert(reply::string_views(names@) =~= list::only(av.take(i as int + 1), shown(damage)).map_values(
                |e: ExtView| targets::bytes_of(e.name),
            ));
        }
        i += 1;
    }
    assert(av.take(i as int) =~= av);
    reply::list(&names)
}

/// The names are short enough to be listed.
proof fn lemma_names_are_short(i: int)
    requires
        0 <= i < ext::offered().len(),
    ensures
        targets::bytes_of(ext::offered()[i].name).len() <= 255,
{
    reveal_strlit("MIT-SHM");
    reveal_strlit("XTEST");
    reveal_strlit("RANDR");
    reveal_strlit("DAMAGE");
    reveal_strlit("BIG-REQUESTS");
    reveal_strlit("XFIXES");
    assert(is_ascii_chars(ext::offered()[i].name));
    is_ascii_chars_encode_utf8(ext::offered()[i].name);
}

/// Only one extension is called DAMAGE.
proof fn lemma_names_differ(i: int)
    requires
        0 <= i < ext::offered().len(),
    ensures
        (targets::bytes_of(ext::offered()[i].name) == targets::bytes_of("DAMAGE"@)) == (ext::offered()[i].name
            == "DAMAGE"@),
{
    encode_utf8_decode_utf8(ext::offered()[i].name);
    encode_utf8_decode_utf8("DAMAGE"@);
}

/// The reply to `QueryExtension`.
pub fn query_extension(server: &Server, name: &[u8]) -> (v: Vec<u8>)
    ensures
        v@ == extension_reply(!server@.config.nodamage, name@),
{
    match ext::extensions().lookup(name) {
        Some(e) => {
            let ghost i = list::first_index(ext::offered(), ext::named(name@))->0;
            proof {
                list::lemma_first_index(ext::offered(), ext::named(name@));
                lemma_names_differ(i);
            }
            if server.config.damage() || !list::same_bytes(e.name.as_bytes(), "DAMAGE".as_bytes()) {
                reply::extension(true, e.major_opcode, e.first_event, e.first_error)
            } else {
                reply::extension(false, 0, 0, 0)
            }
        },
        None => reply::extension(false, 0, 0, 0),
    }
}

fn keyboard(server: &Server, first_keycode: u8, count: u8) -> (v: Vec<u8>)
    ensures
        v@ == keyboard_mapping(server@, first_keycode, count),
{
    match &server.keymap {
        Some(t) => {
            let syms = keymap::mapping_slice(&t.syms, first_keycode, count);
            reply::keyboard(keymap::SYMS_PER, &syms)
        },
        None => {
            let none: Vec<u32> = vec![0u32; count as usize];
            assert(none@ =~= Seq::new(count as nat, |i: int| 0u32));
            reply::keyboard(1, &none)
        },
    }
}

fn modifiers(server: &Server) -> (r: Option<Vec<u8>>)
    ensures
        bytes_view(r) == modifier_mapping(server@),
{
    let default: Vec<u8> = vec![50u8, 62, 66, 0, 37, 105, 64, 108, 77, 0, 0, 0, 133, 134, 0, 0];
    assert(default@ =~= default_modifier_map());
    let keycodes: &Vec<u8> = match &server.keymap {
        Some(t) => &t.modmap,
        None => &default,
    };
    if keycodes.len() % 8 == 0 && keycodes.len() / 8 <= 255 {
        Some(reply::modifiers(keycodes))
    } else {
        None
    }
}

/// The bytes of an answer.
pub open spec fn bytes_view(b: Option<Vec<u8>>) -> Option<Seq<u8>> {
    match b {
        Some(v) => Some(v@),
        None => None,
    }
}

fn screen_resources(server: &Server) -> (r: Option<Vec<u8>>)
    ensures
        bytes_view(r) == resources(server@.screen),
{
    let s = &server.screen;
    let q = Resources {
        timestamp: s.timestamp,
        config_timestamp: s.config_timestamp,
        crtcs: s.crtc_ids(),
        outputs: s.output_ids(),
        modes: s.mode_infos(),
        names: s.mode_names(),
    };
    if q.crtcs.len() <= 0xffff && q.outputs.len() <= 0xffff && q.modes.len() <= 0xffff && q.names.len() <= 0xffff {
        Some(q.reply())
    } else {
        None
    }
}

fn output(server: &Server, id: u32) -> (r: Option<Vec<u8>>)
    ensures
        bytes_view(r) == output_info(server@.screen, id),
{
    let s = &server.screen;
    match s.output_by_id(id) {
        Some(o) => {
            if o.mode_ids.len() > 0xffff || o.name.len() > 0xffff {
                return None;
            }
            let crtc: u32 = if o.mode != 0 { o.crtc_id } else { 0 };
            Some(
                reply::output_info(
                    s.timestamp,
                    crtc,
                    o.mm_width,
                    o.mm_height,
                    o.connected,
                    o.crtc_id,
                    &o.mode_ids,
                    &o.name,
                ),
            )
        },
        None => Some(reply::empty_output_info(s.timestamp)),
    }
}

fn crtc(server: &Server, id: u32) -> (v: Vec<u8>)
    ensures
        v@ == crtc_info(server@.screen, id),
{
    let s = &server.screen;
    match s.output_by_crtc(id) {
        Some(o) => reply::crtc_info(s.timestamp, o.x, o.y, o.width, o.height, o.mode, o.output_id),
        None => reply::empty_crtc_info(s.timestamp),
    }
}

fn cursor(server: &Server) -> (r: Option<Vec<u8>>)
    ensures
        bytes_view(r) == cursor_image(server@.cursor),
{
    let c = server.cursor.snapshot();
    if c.serial == 0 {
        let none: Vec<u32> = vec![0u32];
        assert(none@ =~= seq![0u32]);
        return Some(reply::cursor(c.x, c.y, 1, 1, c.xhot, c.yhot, 1, &none));
    }
    assert(0 <= c.width * c.height <= 0xfffe_0001) by (nonlinear_arith)
        requires
            0 <= c.width <= 0xffff,
            0 <= c.height <= 0xffff,
    ;
    if c.image.len() as u64 == c.width as u64 * c.height as u64 {
        Some(reply::cursor(c.x, c.y, c.width, c.height, c.xhot, c.yhot, c.serial, &c.image))
    } else {
        None
    }
}

fn region(conn: &Connection, id: u32) -> (r: Option<Vec<u8>>)
    ensures
        bytes_view(r) == fetched_region(xfixes::region(conn@.regions, id)),
{
    let rects = conn.regions.get(id);
    if rects.len() > 0x7fff_ffff {
        return None;
    }
    let extents = match geometry::bbox(rects.as_slice()) {
        Some(b) => b,
        None => Rectangle { x: 0, y: 0, width: 0, height: 0 },
    };
    Some(reply::region(extents, &rects))
}

/// Answers a request that changes nothing.
pub fn reply_to(conn: &Connection, server: &Server, ask: Ask) -> (r: Option<Vec<u8>>)
    ensures
        bytes_view(r) == answer(conn@, server@, ask),
{
    proof {
        reveal(answer);
    }
    match ask {
        Ask::GetAtomName { atom } => match server.atoms.name(atom) {
            Some(n) => {
                if n.len() <= 0xffff {
                    Some(reply::name(n))
                } else {
                    None
                }
            },
            None => {
                let none: Vec<u8> = Vec::new();
                Some(reply::name(none.as_slice()))
            },
        },
        Ask::ListExtensions => Some(list_extensions(server.config.damage())),
        Ask::GetSelectionOwner { selection } => Some(reply::word(current_owner(conn, server, selection))),
        Ask::GetGeometry => Some(reply::geometry(server.screen.width, server.screen.height)),
        Ask::QueryPointer => {
            let c = server.cursor.snapshot();
            Some(reply::pointer(c.x, c.y))
        },
        Ask::GetKeyboardMapping { first_keycode, count } => Some(keyboard(server, first_keycode, count)),
        Ask::GetModifierMapping => modifiers(server),
        Ask::RandrGetScreenResources => screen_resources(server),
        Ask::RandrGetScreenInfo => {
            let s = &server.screen;
            Some(reply::screen_info(s.timestamp, s.config_timestamp, s.width, s.height))
        },
        Ask::RandrGetOutputInfo { output: id } => output(server, id),
        Ask::RandrGetCrtcInfo { crtc: id } => Some(crtc(server, id)),
        Ask::RandrGetPanning => Some(reply::bare_timestamp(server.screen.timestamp, 24)),
        Ask::RandrGetOutputPrimary => {
            let ids = server.screen.output_ids();
            Some(reply::word(if ids.len() > 0 { ids[0] } else { 0 }))
        },
        Ask::RandrGetProviders => Some(reply::bare_timestamp(server.screen.timestamp, 20)),
        Ask::RandrGetMonitors => Some(reply::bare_timestamp(server.screen.timestamp, 20)),
        Ask::XfixesGetCursorImage | Ask::XfixesGetCursorImageAndName => cursor(server),
        Ask::XfixesFetchRegion { region: id } => region(conn, id),
        _ => reply::fixed(ask),
    }
}

/// What the server and the connection hold can be put on the wire, whose counts are 16
/// bits (8 for the rows of the modifier map).
pub open spec fn wire_sized(c: ConnView, s: ServerView) -> bool {
    &&& forall|i: int| 0 <= i < s.atoms.len() ==> (#[trigger] s.atoms[i]).len() <= 0xffff
    &&& s.screen.outputs.len() <= 0xffff && s.screen.modes.len() <= 0xffff
    &&& randr::names_of(s.screen.modes).len() <= 0xffff
    &&& forall|i: int|
        0 <= i < s.screen.outputs.len() ==> (#[trigger] s.screen.outputs[i]).mode_ids.len() <= 0xffff
            && s.screen.outputs[i].name.len() <= 0xffff
    &&& s.keymap matches Some((_, modmap)) ==> modmap.len() % 8 == 0 && modmap.len() / 8 <= 255
    &&& s.cursor.serial != 0 ==> s.cursor.image.len() == s.cursor.width * s.cursor.height
    &&& forall|r: u32| #[trigger] xfixes::region(c.regions, r).len() <= 0x7fff_ffff
}

/// Every query has an answer: a client that waits for one is not left waiting.
pub proof fn law_every_query_is_answered(c: ConnView, s: ServerView, ask: Ask)
    requires
        wire_sized(c, s),
    ensures
        answer(c, s, ask) is Some,
{
    reveal(answer);
    if let Ask::GetAtomName { atom } = ask {
        if let Some(n) = atom::name_of(s.atoms, atom) {
            assert(s.atoms[atom - 1].len() <= 0xffff);
        }
    }
    if let Ask::RandrGetOutputInfo { output } = ask {
        list::lemma_first_index(s.screen.outputs, randr::output_is(output));
        if let Some(i) = list::first_index(s.screen.outputs, randr::output_is(output)) {
            assert(s.screen.outputs[i].mode_ids.len() <= 0xffff);
        }
    }
    if let Ask::XfixesFetchRegion { region } = ask {
        assert(xfixes::region(c.regions, region).len() <= 0x7fff_ffff);
    }
}

/// The atom is the one that events name a bridged selection by: PRIMARY is atom 1, unless
/// it is not bridged, and the clipboard is called CLIPBOARD.
pub open spec fn is_atom_of(s: ServerView, selection: u32, sel: Sel) -> bool {
    match sel {
        Sel::Primary => selection == 1 && !s.config.noprimary,
        Sel::Clipboard => selection != 1 && atom::name_of(s.atoms, selection) == Some(targets::bytes_of("CLIPBOARD"@)),
    }
}

/// The selection that an atom stands for is the one whose own atom it is.
pub proof fn law_atoms_stand_for_their_own_selection(s: ServerView, selection: u32, sel: Sel)
    requires
        is_atom_of(s, selection, sel),
    ensures
        bridged(s, selection) == Some(sel),
{
    targets::lemma_names_apart("PRIMARY"@, "CLIPBOARD"@);
    reveal_strlit("PRIMARY");
    reveal_strlit("CLIPBOARD");
}

/// The atom that events name a bridged selection by leads back to that selection.
pub proof fn law_atoms_lead_back_to_their_selection(s: ServerView, sel: Sel)
    requires
        s.atoms.len() < u32::MAX,
        atom::name_of(s.atoms, 1) == Some(targets::bytes_of("PRIMARY"@)),
        sel is Primary ==> !s.config.noprimary,
    ensures
        is_atom_of(s.with_selection_atom(sel), s.selection_atom(sel), sel),
        bridged(s.with_selection_atom(sel), s.selection_atom(sel)) == Some(sel),
{
    let name = targets::bytes_of("CLIPBOARD"@);
    atom::law_name_gives_back_the_name(s.atoms, name);
    atom::law_interning_is_idempotent(s.atoms, name);
    atom::law_atoms_are_for_good(s.atoms, name, name, 1);
    targets::lemma_names_apart("PRIMARY"@, "CLIPBOARD"@);
    reveal_strlit("PRIMARY");
    reveal_strlit("CLIPBOARD");
    law_atoms_stand_for_their_own_selection(s.with_selection_atom(sel), s.selection_atom(sel), sel);
}

/// An atom that is neither PRIMARY nor CLIPBOARD bridges nothing, and with `-noprimary`
/// PRIMARY does not either.
pub proof fn law_other_atoms_bridge_nothing(s: ServerView, selection: u32)
    requires
        selection == 1 || atom::name_of(s.atoms, selection) == Some(targets::bytes_of("PRIMARY"@))
            ==> s.config.noprimary,
        atom::name_of(s.atoms, selection) != Some(targets::bytes_of("CLIPBOARD"@)),
    ensures
        bridged(s, selection) is None,
{
}

/// The owner of PRIMARY is that of the server's PRIMARY, the owner of CLIPBOARD that of
/// its clipboard, whatever the other one is; our own window stands for a Wayland app's.
pub proof fn law_owner_is_that_of_the_selection(c: ConnView, s: ServerView, selection: u32, sel: Sel)
    requires
        is_atom_of(s, selection, sel),
    ensures
        owner_of(c, s, selection) == (match (match sel {
            Sel::Primary => s.clipboard.primary.owner,
            Sel::Clipboard => s.clipboard.clipboard.owner,
        }) {
            OwnerView::Nobody => 0,
            OwnerView::Wayland { .. } => OWNER_WINDOW,
            OwnerView::X(o) => o.window,
        }),
{
    law_atoms_stand_for_their_own_selection(s, selection, sel);
}

/// The geometry of the screen is its size: its width first.
pub proof fn law_geometry_is_that_of_the_screen(c: ConnView, s: ServerView)
    ensures
        answer(c, s, Ask::GetGeometry) matches Some(b) && wire::u16_at(b, 16) == s.screen.width && wire::u16_at(b, 18)
            == s.screen.height,
{
    reveal(answer);
    reply::law_geometry_fields(s.screen.width, s.screen.height);
}

/// The pointer is where the cursor was seen last.
pub proof fn law_pointer_is_where_the_cursor_is(c: ConnView, s: ServerView)
    ensures
        answer(c, s, Ask::QueryPointer) matches Some(b) && wire::i16_at(b, 16) == s.cursor.x && wire::i16_at(b, 18)
            == s.cursor.y,
{
    reveal(answer);
    reply::law_pointer_fields(s.cursor.x, s.cursor.y);
}

/// A selection's owner is the window in the reply.
pub proof fn law_selection_owner_is_told(c: ConnView, s: ServerView, selection: u32)
    ensures
        answer(c, s, Ask::GetSelectionOwner { selection }) matches Some(b) && wire::u32_at(b, 8) == owner_of(
            c,
            s,
            selection,
        ),
{
    reveal(answer);
    reply::law_word_fields(owner_of(c, s, selection));
}

/// The name of an atom is the name that it was interned under.
pub proof fn law_atom_name_is_told(c: ConnView, s: ServerView, atom: u32)
    requires
        1 <= atom <= s.atoms.len(),
        s.atoms[atom - 1].len() <= 0xffff,
    ensures
        answer(c, s, Ask::GetAtomName { atom }) matches Some(b) && wire::u16_at(b, 8) == s.atoms[atom - 1].len()
            && b.subrange(32, 32 + s.atoms[atom - 1].len() as int) == s.atoms[atom - 1],
{
    reveal(answer);
    reply::law_name_fields(s.atoms[atom - 1]);
}

/// What `GetCrtcInfo` says of a CRTC is where its output is on the screen, how large it
/// is and in which mode.
pub proof fn law_crtc_info_is_that_of_its_output(c: ConnView, s: ServerView, i: int)
    requires
        0 <= i < s.screen.outputs.len(),
        forall|k: int| 0 <= k < i ==> (#[trigger] s.screen.outputs[k]).crtc_id != s.screen.outputs[i].crtc_id,
    ensures
        ({
            let o = s.screen.outputs[i];
            answer(c, s, Ask::RandrGetCrtcInfo { crtc: o.crtc_id }) matches Some(b) && {
                &&& b[1] == 0
                &&& wire::u32_at(b, 8) == s.screen.timestamp
                &&& wire::i16_at(b, 12) == o.x && wire::i16_at(b, 14) == o.y
                &&& wire::u16_at(b, 16) == o.width && wire::u16_at(b, 18) == o.height
                &&& wire::u32_at(b, 20) == o.mode
                &&& wire::u32_at(b, 32) == o.output_id
            }
        }),
{
    reveal(answer);
    let o = s.screen.outputs[i];
    assert forall|k: int| 0 <= k < i implies !randr::crtc_is(o.crtc_id)(#[trigger] s.screen.outputs[k]) by {
        assert(s.screen.outputs[k].crtc_id != o.crtc_id);
    }
    list::lemma_first_index_is(s.screen.outputs, randr::crtc_is(o.crtc_id), i);
    reply::law_crtc_info_fields(s.screen.timestamp, o.x, o.y, o.width, o.height, o.mode, o.output_id);
}

/// What `GetOutputInfo` says of an output: its CRTC, unless it is disabled, how large it
/// is in millimetres, whether it is connected, its modes and its name.
pub proof fn law_output_info_is_that_of_the_output(c: ConnView, s: ServerView, i: int)
    requires
        0 <= i < s.screen.outputs.len(),
        forall|k: int| 0 <= k < i ==> (#[trigger] s.screen.outputs[k]).output_id != s.screen.outputs[i].output_id,
        s.screen.outputs[i].mode_ids.len() <= 0xffff,
        s.screen.outputs[i].name.len() <= 0xffff,
    ensures
        ({
            let o = s.screen.outputs[i];
            let m = 40 + 4 * o.mode_ids.len() as int;
            answer(c, s, Ask::RandrGetOutputInfo { output: o.output_id }) matches Some(b) && {
                &&& b[1] == 0
                &&& wire::u32_at(b, 8) == s.screen.timestamp
                &&& wire::u32_at(b, 12) == (if o.mode == 0 { 0 } else { o.crtc_id })
                &&& wire::u32_at(b, 16) == o.mm_width && wire::u32_at(b, 20) == o.mm_height
                &&& b[24] == (if o.connected { 0u8 } else { 1u8 })
                &&& wire::u16_at(b, 28) == o.mode_ids.len()
                &&& wire::u16_at(b, 34) == o.name.len()
                &&& wire::u32_at(b, 36) == o.crtc_id
                &&& b.subrange(40, m) == wire::le32s(o.mode_ids)
                &&& b.subrange(m, m + o.name.len()) == o.name
            }
        }),
{
    reveal(answer);
    let o = s.screen.outputs[i];
    assert forall|k: int| 0 <= k < i implies !randr::output_is(o.output_id)(#[trigger] s.screen.outputs[k]) by {
        assert(s.screen.outputs[k].output_id != o.output_id);
    }
    list::lemma_first_index_is(s.screen.outputs, randr::output_is(o.output_id), i);
    reply::law_output_info_fields(
        s.screen.timestamp,
        if o.mode != 0 {
            o.crtc_id
        } else {
            0
        },
        o.mm_width,
        o.mm_height,
        o.connected,
        o.crtc_id,
        o.mode_ids,
        o.name,
    );
}

/// The screen's resources are its CRTCs, its outputs and its modes, each in order, with
/// the times of the last changes.
#[verifier::spinoff_prover]
#[verifier::rlimit(80)]
pub proof fn law_resources_are_those_of_the_screen(c: ConnView, s: ServerView, i: int, m: int)
    requires
        s.screen.outputs.len() <= 0xffff,
        s.screen.modes.len() <= 0xffff,
        randr::names_of(s.screen.modes).len() <= 0xffff,
        0 <= i < s.screen.outputs.len(),
        0 <= m < s.screen.modes.len(),
    ensures
        ({
            let n = s.screen.outputs.len() as int;
            answer(c, s, Ask::RandrGetScreenResources) matches Some(b) && {
                &&& wire::u32_at(b, 8) == s.screen.timestamp && wire::u32_at(b, 12) == s.screen.config_timestamp
                &&& wire::u16_at(b, 16) == n && wire::u16_at(b, 18) == n
                &&& wire::u16_at(b, 20) == s.screen.modes.len()
                &&& wire::u32_at(b, 32 + 4 * i) == s.screen.outputs[i].crtc_id
                &&& wire::u32_at(b, 32 + 4 * n + 4 * i) == s.screen.outputs[i].output_id
                &&& wire::u32_at(b, 32 + 8 * n + 32 * m) == s.screen.modes[m].info.id
                &&& wire::u16_at(b, 32 + 8 * n + 32 * m + 4) == s.screen.modes[m].info.width
                &&& wire::u16_at(b, 32 + 8 * n + 32 * m + 6) == s.screen.modes[m].info.height
            }
        }),
{
    reveal(answer);
    let n = s.screen.outputs.len() as int;
    let crtcs = s.screen.outputs.map_values(|o: OutputView| o.crtc_id);
    let outputs = s.screen.outputs.map_values(|o: OutputView| o.output_id);
    let infos = s.screen.modes.map_values(|m: ModeView| m.info);
    let names = randr::names_of(s.screen.modes);
    let b = answer(c, s, Ask::RandrGetScreenResources)->0;
    reply::law_resources_fields(s.screen.timestamp, s.screen.config_timestamp, crtcs, outputs, infos, names);
    lemma_resource_items(b, crtcs, outputs, infos, i, m);
}

proof fn lemma_resource_items(b: Seq<u8>, crtcs: Seq<u32>, outputs: Seq<u32>, infos: Seq<ModeInfo>, i: int, m: int)
    requires
        0 <= i < crtcs.len(),
        crtcs.len() == outputs.len(),
        0 <= m < infos.len(),
        b.len() >= 32 + 8 * crtcs.len() + 32 * infos.len(),
        b.subrange(32, 32 + 4 * crtcs.len() as int) == wire::le32s(crtcs),
        b.subrange(32 + 4 * crtcs.len() as int, 32 + 8 * crtcs.len() as int) == wire::le32s(outputs),
        b.subrange(32 + 8 * crtcs.len() as int, 32 + 8 * crtcs.len() + 32 * infos.len() as int) == reply::modes_bytes(
            infos,
        ),
    ensures
        wire::u32_at(b, 32 + 4 * i) == crtcs[i],
        wire::u32_at(b, 32 + 4 * crtcs.len() + 4 * i) == outputs[i],
        wire::u32_at(b, 32 + 8 * crtcs.len() + 32 * m) == infos[m].id,
        wire::u16_at(b, 32 + 8 * crtcs.len() + 32 * m + 4) == infos[m].width,
        wire::u16_at(b, 32 + 8 * crtcs.len() + 32 * m + 6) == infos[m].height,
{
    let n = crtcs.len() as int;
    let k = infos.len() as int;
    wire::law_lists_have_each_number_in_its_place(crtcs, Seq::empty(), i);
    wire::law_lists_have_each_number_in_its_place(outputs, Seq::empty(), i);
    reply::law_modes_are_in_their_places(infos, m);
    lemma_inside(b, 32, 32 + 4 * n, 4 * i);
    lemma_inside(b, 32 + 4 * n, 32 + 8 * n, 4 * i);
    let modes = reply::modes_bytes(infos);
    let mode = reply::mode_bytes(infos[m]);
    lemma_inside(b, 32 + 8 * n, 32 + 8 * n + 32 * k, 32 * m);
    lemma_inside(b, 32 + 8 * n, 32 + 8 * n + 32 * k, 32 * m + 4);
    lemma_inside(modes, 32 * m, 32 * m + 32, 0);
    lemma_inside(modes, 32 * m, 32 * m + 32, 4);
    assert(wire::u32_at(mode, 0) == infos[m].id && wire::u16_at(mode, 4) == infos[m].width && wire::u16_at(mode, 6)
        == infos[m].height) by {
        reply::law_mode_fields(infos[m]);
    }
}

proof fn lemma_inside(b: Seq<u8>, from: int, to: int, i: int)
    requires
        0 <= from,
        0 <= i,
        from + i + 4 <= to <= b.len(),
    ensures
        wire::u32_at(b.subrange(from, to), i) == wire::u32_at(b, from + i),
        wire::u16_at(b.subrange(from, to), i) == wire::u16_at(b, from + i),
        wire::u16_at(b.subrange(from, to), i + 2) == wire::u16_at(b, from + i + 2),
{
}

/// The cursor's image is told with its size, its hot spot and where it is.
pub proof fn law_cursor_is_as_captured(c: ConnView, s: ServerView, i: int)
    requires
        s.cursor.serial != 0,
        s.cursor.image.len() == s.cursor.width * s.cursor.height,
        0 <= i < s.cursor.image.len(),
    ensures
        answer(c, s, Ask::XfixesGetCursorImage) == answer(c, s, Ask::XfixesGetCursorImageAndName),
        answer(c, s, Ask::XfixesGetCursorImage) matches Some(b) && {
            &&& wire::i16_at(b, 8) == s.cursor.x && wire::i16_at(b, 10) == s.cursor.y
            &&& wire::u16_at(b, 12) == s.cursor.width && wire::u16_at(b, 14) == s.cursor.height
            &&& wire::u16_at(b, 16) == s.cursor.xhot && wire::u16_at(b, 18) == s.cursor.yhot
            &&& wire::u32_at(b, 20) == s.cursor.serial
            &&& wire::u32_at(b, 32 + 4 * i) == s.cursor.image[i]
        },
{
    reveal(answer);
    let v = s.cursor;
    let b = answer(c, s, Ask::XfixesGetCursorImage)->0;
    reply::law_cursor_fields(v.x, v.y, v.width, v.height, v.xhot, v.yhot, v.serial, v.image);
    wire::law_lists_have_each_number_in_its_place(v.image, Seq::empty(), i);
    lemma_inside(b, 32, 32 + 4 * v.image.len() as int, 4 * i);
}

/// A keycode's keysyms are those that the keymap's table has for it.
pub proof fn law_keyboard_mapping_is_that_of_the_keymap(
    c: ConnView,
    s: ServerView,
    syms: Seq<u32>,
    modmap: Seq<u8>,
    first_keycode: u8,
    count: u8,
    keycode: u8,
    column: int,
)
    requires
        s.keymap == Some((syms, modmap)),
        syms.len() == 248 * 4,
        8 <= first_keycode <= keycode < first_keycode + count,
        0 <= column < 4,
    ensures
        answer(c, s, Ask::GetKeyboardMapping { first_keycode, count }) matches Some(b) && b[1] == 4 && wire::u32_at(
            b,
            32 + 4 * ((keycode - first_keycode) * 4 + column),
        ) == syms[(keycode - 8) * 4 + column],
{
    reveal(answer);
    let slice = keymap::slice_of(syms, first_keycode, count);
    keymap::law_slices_have_the_symbols_of_their_keys(syms, first_keycode, count, keycode, column);
    reply::law_keyboard_fields(4, slice, (keycode - first_keycode) * 4 + column);
}

/// The rows of the modifier map are those of the keymap.
pub proof fn law_modifier_mapping_is_that_of_the_keymap(c: ConnView, s: ServerView, syms: Seq<u32>, modmap: Seq<u8>)
    requires
        s.keymap == Some((syms, modmap)),
        modmap.len() % 8 == 0,
        modmap.len() / 8 <= 255,
    ensures
        answer(c, s, Ask::GetModifierMapping) matches Some(b) && b[1] == modmap.len() / 8 && b.subrange(
            32,
            32 + modmap.len() as int,
        ) == modmap,
{
    reveal(answer);
    reply::law_modifiers_fields(modmap);
}

} // verus!
