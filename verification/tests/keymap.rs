//! The keyboard mapping, and the keys that are injected.

use xwlrvnc::bridge::input::{Input, InputAction, BUTTON_PRESS, BUTTON_RELEASE, KEY_PRESS, KEY_RELEASE, MOTION_NOTIFY};
use xwlrvnc::bridge::keymap::{build, mapping_slice, modifier_map};
use xwlrvnc::bridge::server::Server;
use xwlrvnc::bridge::wayland::input::{read_keymap, try_init_virtual_input, Loaded};
use xwlrvnc::config::Config;
use xwlrvnc::util::layout::OutputRect;
use xkbcommon_rs::xkb_state::{KeyDirection, StateComponent};
use xkbcommon_rs::{Context, Keymap, KeymapFormat, State};

const KEYMAP: &str = r#"
xkb_keymap {
xkb_keycodes "test" {
    minimum = 8;
    maximum = 255;
    <AC01> = 38;
    <LFSH> = 50;
};
xkb_types "test" {
    type "ONE_LEVEL" {
        modifiers = none;
        level_name[1] = "Any";
    };
    type "TWO_LEVEL" {
        modifiers = Shift;
        map[Shift] = 2;
        level_name[1] = "Base";
        level_name[2] = "Shift";
    };
    type "ALPHABETIC" {
        modifiers = Shift+Lock;
        map[Shift] = 2;
        map[Lock] = 2;
        level_name[1] = "Base";
        level_name[2] = "Caps";
    };
};
xkb_compatibility "test" {
    interpret Shift_L {
        action = SetMods(modifiers=Shift);
    };
};
xkb_symbols "test" {
    name[1] = "English";
    key <AC01> { [ a, A ] };
    key <LFSH> { [ Shift_L ] };
    modifier_map Shift { <LFSH> };
};
};
"#;

fn compiled() -> Keymap {
    let ctx = Context::new(0).expect("a context");
    match Keymap::new_from_string(ctx, KEYMAP, KeymapFormat::TextV1, 0) {
        Ok(k) => k,
        Err(_) => panic!("the keymap compiles"),
    }
}

/// Which modifiers each key sets.
fn sets(keymap: &Keymap) -> Vec<Option<u32>> {
    (8..=255u32)
        .map(|kc| {
            let mut state = State::new(keymap.clone());
            state.key_get_layout(kc)?;
            state.update_key(kc, KeyDirection::Down);
            Some(state.serialize_mods(StateComponent::MODS_EFFECTIVE))
        })
        .collect()
}

#[test]
fn keysyms_stand_by_their_keycode_and_level() {
    let k = compiled();
    let t = build(&k, &sets(&k)).expect("it has few modifiers");
    assert_eq!(t.syms.len(), 248 * 4);
    let at = (38 - 8) * 4;
    assert_eq!(t.syms[at..at + 2], [0x61, 0x41]);
    let at = (50 - 8) * 4;
    assert_eq!(t.syms[at], 0xffe1);
    // a key that the keymap does not have
    let at = (100 - 8) * 4;
    assert_eq!(t.syms[at..at + 4], [0, 0, 0, 0]);
    // Shift is on its key
    let per = t.modmap.len() / 8;
    assert_eq!(t.modmap[0], 50);
    assert!(t.modmap[per..].iter().all(|k| *k == 0));
}

#[test]
fn the_modifier_map_is_padded_to_its_longest_row() {
    // keys 8 and 9 set bit 0, key 9 sets bit 2 as well; key 10 has no layout
    let sets = vec![Some(1), Some(5), None];
    let map = modifier_map(&sets, &vec![1, 2, 4, 0, 0, 0, 0, 0]);
    assert_eq!(map, [8, 9, 0, 0, 9, 0, 0, 0, 0, 0, 0, 0, 0, 0, 0, 0]);
}

#[test]
fn the_mapping_is_cut_to_what_is_asked_for() {
    let table: Vec<u32> = (0..992).collect();
    assert_eq!(mapping_slice(&table, 9, 1), [4, 5, 6, 7]);
    assert_eq!(mapping_slice(&table, 255, 2), [988, 989, 990, 991, 0, 0, 0, 0]);
    assert_eq!(mapping_slice(&table, 0, 1), [0, 1, 2, 3]);
}

#[test]
fn modifiers_follow_the_keys() {
    let mut input = Input::new(100, 100);
    input.set_devices();
    assert!(!input.strikes(KEY_PRESS));
    assert!(input.fake_input(KEY_PRESS, 38, 0, 0, None).is_empty(), "no key before the keymap");
    assert!(input.set_keymap());
    assert!(input.strikes(KEY_PRESS) && input.strikes(KEY_RELEASE) && !input.strikes(BUTTON_PRESS));
    // without a keyboard to follow there are no masks
    assert_eq!(input.fake_input(KEY_PRESS, 38, 0, 0, None), [InputAction::Key { key: 30, pressed: true }]);
    assert_eq!(
        input.fake_input(KEY_RELEASE, 50, 0, 0, Some((1, 2, 3, 4))),
        [
            InputAction::Key { key: 42, pressed: false },
            InputAction::Modifiers { depressed: 1, latched: 2, locked: 3, group: 4 }
        ]
    );
}

#[test]
fn buttons_and_the_wheel() {
    let mut input = Input::new(100, 100);
    input.set_devices();
    assert_eq!(
        input.fake_input(BUTTON_PRESS, 3, 0, 0, None),
        [InputAction::Button { code: 0x111, pressed: true }, InputAction::Frame]
    );
    assert_eq!(
        input.fake_input(BUTTON_PRESS, 4, 0, 0, None),
        [InputAction::Wheel { vertical: true, notches: -1 }, InputAction::Frame]
    );
    assert!(input.fake_input(BUTTON_RELEASE, 4, 0, 0, None).is_empty());
    assert!(input.fake_input(BUTTON_PRESS, 30, 0, 0, None).is_empty());
    assert_eq!(
        input.fake_input(MOTION_NOTIFY, 1, -3, 4, None),
        [InputAction::Motion { dx: -3, dy: 4 }, InputAction::Frame]
    );
}

#[test]
fn motion_goes_through_the_layout() {
    let mut input = Input::new(1280, 800);
    input.set_devices();
    // one output, scaled by two
    input.set_layout(vec![OutputRect { px: 0, py: 0, pw: 1280, ph: 800, lx: 0, ly: 0, lw: 640, lh: 400 }]);
    assert!(input.accepts(MOTION_NOTIFY, 0, 640, 400));
    let m = input.fake_input(MOTION_NOTIFY, 0, 640, 400, None);
    assert_eq!(m[0], InputAction::MotionAbsolute { x: 320, y: 200, extent_x: 640, extent_y: 400 });
}

#[test]
fn a_keymap_ends_at_its_zero_byte() {
    assert_eq!(read_keymap(&b"abc\0def".to_vec()).as_deref(), Some("abc"));
    assert_eq!(read_keymap(&b"caf\xc3\xa9".to_vec()).as_deref(), Some("caf\u{e9}"));
    assert_eq!(read_keymap(&b"bad \xff".to_vec()), None);
}

#[test]
fn a_keymap_is_loaded_once() {
    let mut server = Server::new(Config::default());
    let mut last = None;
    assert_eq!(server.load_keymap(&mut last, KEYMAP.to_string()), Loaded::New { forward: false });
    let k = compiled();
    assert!(server.tabulate_keymap(&k, &sets(&k)));
    assert!(server.keymap.is_some());
    assert_eq!(server.load_keymap(&mut last, KEYMAP.to_string()), Loaded::Same);
    server.input.set_devices();
    assert_eq!(server.load_keymap(&mut last, "nonsense".to_string()), Loaded::New { forward: true });
    assert!(server.keymap.is_some(), "the last good one stays");
}

#[test]
fn virtual_devices_need_everything_once() {
    assert!(try_init_virtual_input(false, true, true, true));
    assert!(!try_init_virtual_input(true, true, true, true));
    assert!(!try_init_virtual_input(false, false, true, true));
    assert!(!try_init_virtual_input(false, true, false, true));
    assert!(!try_init_virtual_input(false, true, true, false));
}
