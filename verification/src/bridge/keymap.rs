//! Builds an X keyboard mapping from the compositor's xkb keymap.
//!
//! X keycode = evdev code + 8, which is what xkb uses too. So a keysym the
//! client looks up resolves to a keycode whose `keycode - 8` is the evdev code
//! XTest injects, and the compositor, running the same keymap, turns it back into
//! the keysym the client meant.

use crate::util::geometry;
use crate::util::list;
use vstd::prelude::*;

verus! {

/// X keycode range we expose (evdev 0..=247 shifted by 8).
pub const MIN_KEYCODE: u8 = 8;

pub const MAX_KEYCODE: u8 = 255;

/// Keysyms per keycode: base, shift, level3 (AltGr), shift+level3.
pub const SYMS_PER: u8 = 4;

/// The X keyboard mapping derived from one compositor keymap.
pub struct KeyTable {
    /// Keysyms for keycodes `MIN_KEYCODE..=MAX_KEYCODE`, `SYMS_PER` each.
    pub syms: Vec<u32>,
    /// The `GetModifierMapping` table: 8 modifiers (Shift, Lock, Control,
    /// Mod1..Mod5) of `modmap.len() / 8` X keycodes each, 0 padding.
    pub modmap: Vec<u8>,
}

/// `xkbcommon_rs::Keymap`: a compiled keymap.
#[verifier::external_type_specification]
#[verifier::external_body]
pub struct ExKeymap(xkbcommon_rs::Keymap);

/// `xkbcommon_rs::State`: a keyboard's state under a keymap.
#[verifier::external_type_specification]
#[verifier::external_body]
pub struct ExState(xkbcommon_rs::State);

/// `xkbcommon_rs::Keymap::num_mods`: how many modifiers a keymap has.
pub uninterp spec fn mod_total(k: xkbcommon_rs::Keymap) -> usize;

/// `xkbcommon_rs::Keymap::mod_get_index`: the number of a modifier, if the keymap has it.
pub uninterp spec fn mod_number(k: xkbcommon_rs::Keymap, name: Seq<char>) -> Option<usize>;

/// `xkbcommon_rs::State::new`: a keyboard under a keymap with nothing pressed.
pub uninterp spec fn fresh_state(k: xkbcommon_rs::Keymap) -> xkbcommon_rs::State;

/// `xkbcommon_rs::State::get_keymap`: the keymap of a keyboard.
pub uninterp spec fn keymap_of(s: xkbcommon_rs::State) -> xkbcommon_rs::Keymap;

/// `xkbcommon_rs::State::update_mask`: a keyboard with just these modifiers depressed.
pub uninterp spec fn masked(s: xkbcommon_rs::State, mods: u32) -> xkbcommon_rs::State;

/// `xkbcommon_rs::State::key_get_one_sym`: the keysym of a key, 0 if it does not have
/// exactly one.
pub uninterp spec fn sym_at(s: xkbcommon_rs::State, keycode: u32) -> u32;

/// `xkbcommon_rs::Keymap::num_mods`, which the contract gives its name.
#[verifier::external_body]
fn num_mods(keymap: &xkbcommon_rs::Keymap) -> (n: usize)
    ensures
        n == mod_total(*keymap),
{
    keymap.num_mods()
}

/// `xkbcommon_rs::State::new`. The contract gives the keyboard its name and says that
/// its keymap is this one.
#[verifier::external_body]
fn new_state(keymap: &xkbcommon_rs::Keymap) -> (s: xkbcommon_rs::State)
    ensures
        s == fresh_state(*keymap),
        keymap_of(s) == *keymap,
{
    xkbcommon_rs::State::new(keymap.clone())
}

/// `xkbcommon_rs::Keymap::mod_get_index`, which the contract gives its name.
#[verifier::external_body]
fn mod_index(keymap: &xkbcommon_rs::Keymap, name: &str) -> (i: Option<usize>)
    ensures
        i == mod_number(*keymap, name@),
{
    keymap.mod_get_index(name)
}

/// `xkbcommon_rs::State::update_mask`, to set the depressed modifiers and reset all
/// else. The contract gives the keyboard after it its name and says that it keeps its
/// keymap. A keymap with 32 modifiers overflows its mask.
#[verifier::external_body]
fn set_mods(s: &mut xkbcommon_rs::State, mods: u32)
    requires
        mod_total(keymap_of(*old(s))) < 32,
    ensures
        *final(s) == masked(*old(s), mods),
        keymap_of(*final(s)) == keymap_of(*old(s)),
{
    s.update_mask(mods, 0, 0, 0, 0, 0);
}

/// `xkbcommon_rs::State::key_get_one_sym`, which the contract gives its name.
#[verifier::external_body]
fn one_sym(s: &xkbcommon_rs::State, keycode: u32) -> (sym: u32)
    ensures
        sym == sym_at(*s, keycode),
{
    s.key_get_one_sym(keycode).map_or(0, |k| k.raw())
}

/// The bit of modifier number `i`, 0 for one that is not there.
pub open spec fn bit_of(i: Option<usize>) -> u32 {
    match i {
        Some(n) if n < 32 => 1u32 << n,
        _ => 0,
    }
}

/// The bit of a modifier's number.
fn mask_of(i: Option<usize>) -> (m: u32)
    ensures
        m == bit_of(i),
{
    match i {
        Some(n) => if n < 32 {
            1u32 << n
        } else {
            0
        },
        None => 0,
    }
}

/// The keycodes (from [`MIN_KEYCODE`] on) among the first `n` whose pressing sets a
/// modifier bit of `m`. `sets` has what each key sets, `None` for one that cannot be
/// pressed.
pub open spec fn keys_setting(sets: Seq<Option<u32>>, m: u32, n: int) -> Seq<u8>
    decreases n,
{
    if n <= 0 {
        Seq::empty()
    } else {
        let rest = keys_setting(sets, m, n - 1);
        match sets[n - 1] {
            Some(set) if m != 0 && set & m != 0 => rest.push((MIN_KEYCODE + n - 1) as u8),
            _ => rest,
        }
    }
}

/// The most keys that the first `k` modifiers have, at least one.
pub open spec fn width_of(sets: Seq<Option<u32>>, mods: Seq<u32>, k: int) -> int
    decreases k,
{
    if k <= 0 {
        1
    } else {
        geometry::max_of(
            width_of(sets, mods, k - 1),
            keys_setting(sets, mods[k - 1], sets.len() as int).len() as int,
        )
    }
}

/// The rows of the first `k` modifiers, each `per` long and filled up with zeroes.
pub open spec fn rows(sets: Seq<Option<u32>>, mods: Seq<u32>, per: int, k: int) -> Seq<u8>
    decreases k,
{
    if k <= 0 {
        Seq::empty()
    } else {
        let keys = keys_setting(sets, mods[k - 1], sets.len() as int);
        rows(sets, mods, per, k - 1) + keys + Seq::new((per - keys.len()) as nat, |i: int| 0u8)
    }
}

/// The keycodes of one modifier; see [`keys_setting`].
fn keys_of(sets: &Vec<Option<u32>>, m: u32) -> (keys: Vec<u8>)
    requires
        sets@.len() <= 248,
    ensures
        keys@ == keys_setting(sets@, m, sets@.len() as int),
        keys@.len() <= 248,
{
    let mut keys: Vec<u8> = Vec::new();
    let mut n: usize = 0;
    while n < sets.len()
        invariant
            n <= sets.len(),
            sets@.len() <= 248,
            keys@ == keys_setting(sets@, m, n as int),
            keys@.len() <= n,
        decreases sets.len() - n,
    {
        if let Some(set) = sets[n] {
            if m != 0 && set & m != 0 {
                keys.push(MIN_KEYCODE + n as u8);
            }
        }
        n += 1;
    }
    keys
}

/// The `GetModifierMapping` table: for each modifier bit the keys that set it, in
/// rows as long as the longest.
pub fn modifier_map(sets: &Vec<Option<u32>>, mods: &Vec<u32>) -> (modmap: Vec<u8>)
    requires
        sets@.len() <= 248,
    ensures
        modmap@ == rows(
            sets@,
            mods@,
            width_of(sets@, mods@, mods@.len() as int),
            mods@.len() as int,
        ),
        modmap@.len() == mods@.len() * width_of(sets@, mods@, mods@.len() as int),
        1 <= width_of(sets@, mods@, mods@.len() as int) <= 248,
{
    let mut per: usize = 1;
    let mut k: usize = 0;
    while k < mods.len()
        invariant
            k <= mods.len(),
            sets@.len() <= 248,
            1 <= per <= 248,
            per == width_of(sets@, mods@, k as int),
        decreases mods.len() - k,
    {
        let n: usize = keys_of(sets, mods[k]).len();
        if n > per {
            per = n;
        }
        k += 1;
    }
    let mut modmap: Vec<u8> = Vec::new();
    let mut k: usize = 0;
    while k < mods.len()
        invariant
            k <= mods.len(),
            sets@.len() <= 248,
            per == width_of(sets@, mods@, mods@.len() as int),
            modmap@ == rows(sets@, mods@, per as int, k as int),
            modmap@.len() == k * per,
        decreases mods.len() - k,
    {
        let keys = keys_of(sets, mods[k]);
        proof {
            lemma_width(sets@, mods@, k as int, mods@.len() as int);
            assert((k + 1) * per == k * per + per) by (nonlinear_arith);
        }
        let ghost m0 = modmap@;
        list::append_bytes(&mut modmap, keys.as_slice());
        let ghost m1 = modmap@;
        let mut i: usize = keys.len();
        assert(modmap@ =~= m1 + Seq::new(0, |j: int| 0u8));
        while i < per
            invariant
                keys@.len() <= i <= per,
                modmap@ == m1 + Seq::new((i - keys@.len()) as nat, |j: int| 0u8),
            decreases per - i,
        {
            modmap.push(0);
            assert(modmap@ =~= m1 + Seq::new((i + 1 - keys@.len()) as nat, |j: int| 0u8));
            i += 1;
        }
        k += 1;
    }
    modmap
}

/// A row is long enough for every modifier.
proof fn lemma_width(sets: Seq<Option<u32>>, mods: Seq<u32>, k: int, n: int)
    requires
        0 <= k < n,
    ensures
        keys_setting(sets, mods[k], sets.len() as int).len() <= width_of(sets, mods, n),
    decreases n,
{
    if k < n - 1 {
        lemma_width(sets, mods, k, n - 1);
    }
}

/// The bit of a modifier of a keymap.
pub open spec fn bit_in(k: xkbcommon_rs::Keymap, name: Seq<char>) -> u32 {
    bit_of(mod_number(k, name))
}

/// The modifiers that lead to the levels of a key: none, Shift, AltGr, both.
pub open spec fn levels_of(k: xkbcommon_rs::Keymap) -> Seq<u32> {
    let shift = bit_in(k, "Shift"@);
    let level3 = bit_in(k, "Mod5"@);
    seq![0u32, shift, level3, shift | level3]
}

/// The bits of the X modifiers, in `GetModifierMapping` order, by their xkb
/// real-modifier names.
pub open spec fn x_modifiers(k: xkbcommon_rs::Keymap) -> Seq<u32> {
    seq![
        bit_in(k, "Shift"@),
        bit_in(k, "Lock"@),
        bit_in(k, "Control"@),
        bit_in(k, "Mod1"@),
        bit_in(k, "Mod2"@),
        bit_in(k, "Mod3"@),
        bit_in(k, "Mod4"@),
        bit_in(k, "Mod5"@),
    ]
}

/// The keyboard after it was set to the first `n` levels, key by key.
pub open spec fn leveled(s: xkbcommon_rs::State, levels: Seq<u32>, n: int) -> xkbcommon_rs::State
    decreases n,
{
    if n <= 0 {
        s
    } else {
        masked(leveled(s, levels, n - 1), levels[(n - 1) % 4])
    }
}

/// The keysyms of all keys at all levels.
pub open spec fn syms_of(k: xkbcommon_rs::Keymap) -> Seq<u32> {
    Seq::new(992, |i: int| sym_at(leveled(fresh_state(k), levels_of(k), i + 1), (MIN_KEYCODE + i / 4) as u32))
}

/// The table is the keymap's, whose keys set these modifiers.
pub open spec fn tabulates(t: KeyTable, k: xkbcommon_rs::Keymap, sets: Seq<Option<u32>>) -> bool {
    &&& t.syms@ == syms_of(k)
    &&& t.modmap@ == rows(sets, x_modifiers(k), width_of(sets, x_modifiers(k), 8), 8)
    &&& t.modmap@.len() % 8 == 0
    &&& t.modmap@.len() >= 8
}

/// How many keycodes there are.
pub const KEYS: usize = 248;

/// The keysym and modifier tables of a compiled keymap. `sets` has which modifiers each
/// key from [`MIN_KEYCODE`] on sets when it is pressed alone, `None` for a key that
/// cannot be pressed. The modifier map comes from the keymap too, so xkb options that
/// move modifiers (swapping Caps and Ctrl, say) show up in X.
pub fn tables(keymap: &xkbcommon_rs::Keymap, sets: &Vec<Option<u32>>) -> (t: KeyTable)
    requires
        mod_total(*keymap) < 32,
        sets@.len() <= KEYS,
    ensures
        tabulates(t, *keymap, sets@),
{
    let mut state = new_state(keymap);
    let ghost s0 = state;
    let shift: u32 = mask_of(mod_index(keymap, "Shift"));
    let level3: u32 = mask_of(mod_index(keymap, "Mod5"));
    let mut levels: Vec<u32> = Vec::new();
    levels.push(0);
    levels.push(shift);
    levels.push(level3);
    levels.push(shift | level3);
    assert(levels@ =~= levels_of(*keymap));
    let mut syms: Vec<u32> = Vec::new();
    let mut i: usize = 0;
    while i < 992
        invariant
            i <= 992,
            mod_total(*keymap) < 32,
            keymap_of(state) == *keymap,
            s0 == fresh_state(*keymap),
            levels@ == levels_of(*keymap),
            state == leveled(s0, levels@, i as int),
            syms@ == syms_of(*keymap).take(i as int),
        decreases 992 - i,
    {
        set_mods(&mut state, levels[i % 4]);
        syms.push(one_sym(&state, (i / 4) as u32 + MIN_KEYCODE as u32));
        assert(syms_of(*keymap).take(i as int + 1) =~= syms_of(*keymap).take(i as int).push(
            syms_of(*keymap)[i as int],
        ));
        i += 1;
    }
    assert(syms_of(*keymap).take(992) =~= syms_of(*keymap));
    let mut mods: Vec<u32> = Vec::new();
    mods.push(mask_of(mod_index(keymap, "Shift")));
    mods.push(mask_of(mod_index(keymap, "Lock")));
    mods.push(mask_of(mod_index(keymap, "Control")));
    mods.push(mask_of(mod_index(keymap, "Mod1")));
    mods.push(mask_of(mod_index(keymap, "Mod2")));
    mods.push(mask_of(mod_index(keymap, "Mod3")));
    mods.push(mask_of(mod_index(keymap, "Mod4")));
    mods.push(mask_of(mod_index(keymap, "Mod5")));
    assert(mods@ =~= x_modifiers(*keymap));
    let modmap = modifier_map(sets, &mods);
    proof {
        let w = width_of(sets@, mods@, 8);
        assert(modmap@.len() == 8 * w);
        assert((8 * w) % 8 == 0);
    }
    KeyTable { syms, modmap }
}

/// The tables of a compiled keymap, unless it has 32 modifiers, which overflow the mask
/// that they are read with.
pub fn build(keymap: &xkbcommon_rs::Keymap, sets: &Vec<Option<u32>>) -> (r: Option<KeyTable>)
    requires
        sets@.len() <= KEYS,
    ensures
        r is Some <==> mod_total(*keymap) < 32,
        r matches Some(t) ==> tabulates(t, *keymap, sets@),
{
    if num_mods(keymap) < 32 {
        Some(tables(keymap, sets))
    } else {
        None
    }
}

/// The keysyms of a `GetKeyboardMapping` request.
pub open spec fn slice_of(table: Seq<u32>, first_keycode: u8, count: u8) -> Seq<u32> {
    let start = geometry::max_of(first_keycode - MIN_KEYCODE, 0) * SYMS_PER;
    Seq::new(
        (count * SYMS_PER) as nat,
        |i: int|
            if start + i < table.len() {
                table[start + i]
            } else {
                0u32
            },
    )
}

/// Slices the table for a `GetKeyboardMapping(first_keycode, count)` request; there
/// is no symbol beyond its end.
pub fn mapping_slice(table: &Vec<u32>, first_keycode: u8, count: u8) -> (v: Vec<u32>)
    ensures
        v@ == slice_of(table@, first_keycode, count),
{
    let start: usize = first_keycode.saturating_sub(MIN_KEYCODE) as usize * 4;
    let n: usize = count as usize * 4;
    let mut v: Vec<u32> = Vec::new();
    let mut i: usize = 0;
    while i < n
        invariant
            i <= n,
            n == count * 4,
            start == geometry::max_of(first_keycode - MIN_KEYCODE, 0) * 4,
            start <= 1020,
            n <= 1020,
            v@.len() == i,
            forall|j: int|
                0 <= j < i ==> #[trigger] v@[j] == (if start + j < table@.len() {
                    table@[start + j]
                } else {
                    0u32
                }),
        decreases n - i,
    {
        if start + i < table.len() {
            v.push(table[start + i]);
        } else {
            v.push(0);
        }
        i += 1;
    }
    assert(v@ =~= slice_of(table@, first_keycode, count));
    v
}

/// A key that sets none of a modifier's bits is not in its row.
pub proof fn law_row_holds_the_keys_that_set_it(sets: Seq<Option<u32>>, m: u32, n: int, k: int)
    requires
        0 <= k < n <= sets.len(),
        n <= 248,
    ensures
        keys_setting(sets, m, n).contains((MIN_KEYCODE + k) as u8) <==> m != 0 && (sets[k] matches Some(set) && set & m
            != 0),
    decreases n,
{
    let rest = keys_setting(sets, m, n - 1);
    let all = keys_setting(sets, m, n);
    let key = (MIN_KEYCODE + k) as u8;
    lemma_keys_below(sets, m, n - 1);
    if k < n - 1 {
        law_row_holds_the_keys_that_set_it(sets, m, n - 1, k);
        if rest.contains(key) {
            let i = rest.index_of(key);
            assert(all[i] == key);
        }
        if all.contains(key) {
            let i = all.index_of(key);
            if i < rest.len() {
                assert(rest[i] == key);
            }
        }
    } else {
        if all.len() > rest.len() {
            assert(all[rest.len() as int] == key);
        }
        if rest.contains(key) {
            let i = rest.index_of(key);
            assert(rest[i] < MIN_KEYCODE + (n - 1));
        }
    }
}

/// Row `r` of the modifier map is that of the modifier that the X protocol puts there
/// (Shift, Lock, Control, Mod1 to Mod5): a keycode stands in it exactly if pressing its
/// key sets the bit that the keymap gives to the modifier of that name.
pub proof fn law_modifier_rows_are_in_protocol_order(
    t: KeyTable,
    keymap: xkbcommon_rs::Keymap,
    sets: Seq<Option<u32>>,
    r: int,
    key: int,
)
    requires
        tabulates(t, keymap, sets),
        sets.len() <= KEYS,
        0 <= r < 8,
        0 <= key < sets.len(),
    ensures
        ({
            let w = t.modmap@.len() as int / 8;
            let name = seq!["Shift"@, "Lock"@, "Control"@, "Mod1"@, "Mod2"@, "Mod3"@, "Mod4"@, "Mod5"@][r];
            t.modmap@.subrange(r * w, r * w + w).contains((8 + key) as u8) <==> (mod_number(keymap, name) matches Some(n)
                && n < 32 && (sets[key] matches Some(set) && set & (1u32 << n) != 0))
        }),
{
    let mods = x_modifiers(keymap);
    let per = width_of(sets, mods, 8);
    let len = sets.len() as int;
    let m = mods[r];
    let keys = keys_setting(sets, m, len);
    lemma_row(sets, mods, per, 8, r);
    law_row_holds_the_keys_that_set_it(sets, m, len, key);
    lemma_keys_below(sets, m, len);
    let row = t.modmap@.subrange(r * per, r * per + per);
    let k = (8 + key) as u8;
    if row.contains(k) {
        let i = row.index_of(k);
        assert(row[i] == k);
        assert(keys[i] == k);
    }
    if keys.contains(k) {
        let i = keys.index_of(k);
        assert(row[i] == k);
    }
    if let Some(set) = sets[key] {
        assert(set & 0 == 0) by (bit_vector);
    }
}

/// A row of the modifier map lists its keycodes in rising order, each of them once, and
/// then nothing but zeroes.
pub proof fn law_modifier_rows_rise(
    t: KeyTable,
    keymap: xkbcommon_rs::Keymap,
    sets: Seq<Option<u32>>,
    r: int,
    i: int,
    j: int,
)
    requires
        tabulates(t, keymap, sets),
        sets.len() <= KEYS,
        0 <= r < 8,
        0 <= i < j < t.modmap@.len() / 8,
    ensures
        ({
            let w = t.modmap@.len() as int / 8;
            let (a, b) = (t.modmap@[r * w + i], t.modmap@[r * w + j]);
            a == 0 && b == 0 || 8 <= a < 8 + sets.len() && (b == 0 || a < b < 8 + sets.len())
        }),
{
    let mods = x_modifiers(keymap);
    let per = width_of(sets, mods, 8);
    lemma_row(sets, mods, per, 8, r);
    lemma_keys_below(sets, mods[r], sets.len() as int);
    let row = t.modmap@.subrange(r * per, r * per + per);
    assert(row[i] == t.modmap@[r * per + i]);
    assert(row[j] == t.modmap@[r * per + j]);
}

/// No row of the modifier map is longer than it must be: one of them is full, unless no
/// key sets any modifier and each row is a single zero.
pub proof fn law_modifier_rows_are_no_longer_than_needed(
    t: KeyTable,
    keymap: xkbcommon_rs::Keymap,
    sets: Seq<Option<u32>>,
) -> (r: int)
    requires
        tabulates(t, keymap, sets),
        sets.len() <= KEYS,
    ensures
        ({
            let w = t.modmap@.len() as int / 8;
            w == 1 || 0 <= r < 8 && t.modmap@[r * w + w - 1] != 0
        }),
{
    let mods = x_modifiers(keymap);
    let per = width_of(sets, mods, 8);
    lemma_row(sets, mods, per, 8, 0);
    if per != 1 {
        let r = lemma_widest(sets, mods, 8);
        lemma_row(sets, mods, per, 8, r);
        lemma_keys_below(sets, mods[r], sets.len() as int);
        let row = t.modmap@.subrange(r * per, r * per + per);
        assert(row[per - 1] == t.modmap@[r * per + per - 1]);
        r
    } else {
        0
    }
}

proof fn lemma_widest(sets: Seq<Option<u32>>, mods: Seq<u32>, k: int) -> (r: int)
    requires
        0 <= k,
        width_of(sets, mods, k) != 1,
    ensures
        0 <= r < k,
        keys_setting(sets, mods[r], sets.len() as int).len() == width_of(sets, mods, k),
    decreases k,
{
    if width_of(sets, mods, k) == width_of(sets, mods, k - 1) {
        lemma_widest(sets, mods, k - 1)
    } else {
        k - 1
    }
}

/// The columns of a key are its keysyms with nothing held, with Shift, with AltGr (Mod5)
/// and with both, each for a state that the keyboard was in when they were read.
pub proof fn law_columns_are_the_levels(
    t: KeyTable,
    keymap: xkbcommon_rs::Keymap,
    sets: Seq<Option<u32>>,
    key: int,
    column: int,
) -> (s: xkbcommon_rs::State)
    requires
        tabulates(t, keymap, sets),
        0 <= key < 248,
        0 <= column < 4,
    ensures
        t.syms@.len() == 248 * 4,
        ({
            let shift = bit_of(mod_number(keymap, "Shift"@));
            let alt_gr = bit_of(mod_number(keymap, "Mod5"@));
            let sym = t.syms@[key * 4 + column];
            &&& column == 0 ==> sym == sym_at(masked(s, 0), (8 + key) as u32)
            &&& column == 1 ==> sym == sym_at(masked(s, shift), (8 + key) as u32)
            &&& column == 2 ==> sym == sym_at(masked(s, alt_gr), (8 + key) as u32)
            &&& column == 3 ==> sym == sym_at(masked(s, shift | alt_gr), (8 + key) as u32)
        }),
{
    let i = key * 4 + column;
    let s = leveled(fresh_state(keymap), levels_of(keymap), i);
    assert(i % 4 == column && i / 4 == key);
    assert(t.syms@[i] == sym_at(masked(s, levels_of(keymap)[column]), (8 + key) as u32));
    s
}

/// The bits of the modifiers are powers of two, in the order of their numbers.
pub proof fn law_modifier_bits_are_apart(i: usize, j: usize)
    requires
        i < 32,
        j < 32,
        i != j,
    ensures
        bit_of(Some(i)) & bit_of(Some(i)) != 0,
        bit_of(Some(i)) & bit_of(Some(j)) == 0,
        i < j ==> bit_of(Some(i)) < bit_of(Some(j)),
{
    let (a, b) = (i as u32, j as u32);
    assert((1u32 << a) & (1u32 << a) != 0) by (bit_vector)
        requires
            a < 32,
    ;
    assert((1u32 << a) & (1u32 << b) == 0) by (bit_vector)
        requires
            a < 32,
            b < 32,
            a != b,
    ;
    assert(a < b ==> (1u32 << a) < (1u32 << b)) by (bit_vector)
        requires
            a < 32,
            b < 32,
    ;
}

/// A reply about the keys from a keycode on has the symbols of each of them where the
/// table has them.
pub proof fn law_slices_have_the_symbols_of_their_keys(table: Seq<u32>, first: u8, count: u8, keycode: u8, column: int)
    requires
        table.len() == 248 * 4,
        8 <= first <= keycode < first + count,
        0 <= column < 4,
    ensures
        slice_of(table, first, count).len() == count * 4,
        slice_of(table, first, count)[(keycode - first) * 4 + column] == table[(keycode - 8) * 4 + column],
{
}

proof fn lemma_row(sets: Seq<Option<u32>>, mods: Seq<u32>, per: int, k: int, r: int)
    requires
        0 <= r < k <= mods.len(),
        sets.len() <= 248,
        per >= width_of(sets, mods, k),
    ensures
        rows(sets, mods, per, k).len() == k * per,
        0 <= r * per,
        r * per + per <= k * per,
        rows(sets, mods, per, k).subrange(r * per, r * per + per) == keys_setting(sets, mods[r], sets.len() as int)
            + Seq::new((per - keys_setting(sets, mods[r], sets.len() as int).len()) as nat, |i: int| 0u8),
        keys_setting(sets, mods[r], sets.len() as int).len() <= per,
        per >= 1,
    decreases k,
{
    lemma_width(sets, mods, k - 1, k);
    lemma_width(sets, mods, r, k);
    let keys = keys_setting(sets, mods[k - 1], sets.len() as int);
    let before = rows(sets, mods, per, k - 1);
    let all = rows(sets, mods, per, k);
    lemma_rows_len(sets, mods, per, k - 1);
    lemma_width_is_positive(sets, mods, k);
    assert((k - 1) * per + per == k * per) by (nonlinear_arith);
    assert(0 <= r * per && r * per + per <= k * per) by (nonlinear_arith)
        requires
            0 <= r < k,
            0 <= per,
    ;
    if r < k - 1 {
        lemma_row(sets, mods, per, k - 1, r);
        assert(all.subrange(r * per, r * per + per) =~= before.subrange(r * per, r * per + per));
    } else {
        assert(all.subrange(r * per, r * per + per) =~= keys + Seq::new((per - keys.len()) as nat, |i: int| 0u8));
    }
}

proof fn lemma_width_is_positive(sets: Seq<Option<u32>>, mods: Seq<u32>, k: int)
    ensures
        width_of(sets, mods, k) >= 1,
    decreases k,
{
    if k > 0 {
        lemma_width_is_positive(sets, mods, k - 1);
    }
}

proof fn lemma_rows_len(sets: Seq<Option<u32>>, mods: Seq<u32>, per: int, k: int)
    requires
        0 <= k <= mods.len(),
        per >= width_of(sets, mods, k),
    ensures
        rows(sets, mods, per, k).len() == k * per,
    decreases k,
{
    if k > 0 {
        lemma_width(sets, mods, k - 1, k);
        lemma_rows_len(sets, mods, per, k - 1);
        assert((k - 1) * per + per == k * per) by (nonlinear_arith);
    } else {
        assert(rows(sets, mods, per, k).len() == 0);
        assert(k * per == 0) by (nonlinear_arith)
            requires
                k == 0,
        ;
    }
}

proof fn lemma_keys_below(sets: Seq<Option<u32>>, m: u32, n: int)
    requires
        0 <= n <= sets.len(),
        n <= 248,
    ensures
        forall|i: int|
            0 <= i < keys_setting(sets, m, n).len() ==> 8 <= #[trigger] keys_setting(sets, m, n)[i] < MIN_KEYCODE + n,
        forall|i: int, j: int|
            0 <= i < j < keys_setting(sets, m, n).len() ==> #[trigger] keys_setting(sets, m, n)[i]
                < #[trigger] keys_setting(sets, m, n)[j],
    decreases n,
{
    if n > 0 {
        lemma_keys_below(sets, m, n - 1);
        let rest = keys_setting(sets, m, n - 1);
        let all = keys_setting(sets, m, n);
        assert forall|i: int| 0 <= i < all.len() implies 8 <= #[trigger] all[i] < MIN_KEYCODE + n by {
            if i < rest.len() {
                assert(all[i] == rest[i]);
            }
        }
        assert forall|i: int, j: int| 0 <= i < j < all.len() implies #[trigger] all[i] < #[trigger] all[j] by {
            assert(all[i] == rest[i]);
            if j < rest.len() {
                assert(all[j] == rest[j]);
            }
        }
    }
}

} // verus!
