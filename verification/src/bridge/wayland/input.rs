//! The virtual keyboard and pointer, and the compositor's keymap.
//!
//! Both devices are made once the seat and both managers exist. The keymap goes to the
//! virtual keyboard verbatim: the X keymap we advertise is built from the same one (an X
//! keycode is the evdev one and 8, which is xkb's too), so keys map to themselves.

use crate::bridge::event::sink;
use crate::bridge::input::InputView;
use crate::bridge::keymap;
use crate::bridge::keymap::{MAX_KEYCODE, MIN_KEYCODE};
use crate::bridge::server::{Server, ServerView};
use crate::util::list;
use vstd::prelude::*;
use vstd::utf8::*;

verus! {

/// The format number of an xkb v1 text keymap.
pub const KEYMAP_FORMAT_XKB_V1: u32 = 1;

/// Whether both devices are to be made now: they have not been, and the seat and both
/// managers are there.
pub fn try_init_virtual_input(ready: bool, seat: bool, pointer: bool, keyboard: bool) -> (b: bool)
    ensures
        b == (!ready && seat && pointer && keyboard),
{
    !ready && seat && pointer && keyboard
}

/// [`String::from_utf8`]. The contract says which bytes are taken, and that the text is
/// what they encode.
#[verifier::external_body]
fn from_utf8(bytes: Vec<u8>) -> (r: Option<String>)
    ensures
        r is Some <==> valid_utf8(bytes@),
        r matches Some(s) ==> s@ == decode_utf8(bytes@),
{
    String::from_utf8(bytes).ok()
}

/// The bytes before the first zero one.
pub open spec fn before_zero(bytes: Seq<u8>) -> Seq<u8> {
    match list::first_index(bytes, |b: u8| b == 0) {
        Some(i) => bytes.take(i),
        None => bytes,
    }
}

/// The text of a keymap, which ends at its first zero byte; `None` if it is not UTF-8.
pub fn read_keymap(bytes: &Vec<u8>) -> (r: Option<String>)
    ensures
        r is Some <==> valid_utf8(before_zero(bytes@)),
        r matches Some(s) ==> s@ == decode_utf8(before_zero(bytes@)),
{
    let ghost p = |b: u8| b == 0;
    let mut i: usize = 0;
    while i < bytes.len() && bytes[i] != 0
        invariant
            i <= bytes.len(),
            p == (|b: u8| b == 0),
            forall|j: int| 0 <= j < i ==> !p(#[trigger] bytes@[j]),
        decreases bytes.len() - i,
    {
        i += 1;
    }
    proof {
        if i < bytes@.len() {
            list::lemma_first_index_is(bytes@, p, i as int);
        } else {
            list::lemma_first_index_none(bytes@, p);
        }
        assert(bytes@.subrange(0, i as int) =~= before_zero(bytes@));
    }
    from_utf8(list::copy_range(bytes.as_slice(), 0, i))
}

/// What is to be done about a keymap.
#[derive(Clone, Copy, PartialEq, Eq, Structural, Debug)]
pub enum Loaded {
    /// It is the one there was. Forwarding a keymap to our virtual keyboard makes sway
    /// announce it to us again, and ignoring it then is what breaks that loop.
    Same,
    /// It is to be compiled for [`Server::tabulate_keymap`], forwarded if there is a
    /// virtual keyboard, and kept for a later one.
    New { forward: bool },
}

impl Server {
    /// The compositor announced a keymap.
    pub fn load_keymap(&mut self, last: &mut Option<String>, text: String) -> (r: Loaded)
        requires
            old(self).wf(),
        ensures
            final(self).wf(),
            final(self).framebuffer == old(self).framebuffer,
            *final(last) matches Some(t) && t@ == text@,
            match *old(last) {
                Some(t) if t@ == text@ => r == Loaded::Same && final(self)@ == old(self)@,
                _ => {
                    let before = old(self)@.input;
                    &&& r == Loaded::New { forward: before.ready }
                    &&& final(self)@ == (ServerView {
                        input: InputView { keymap_set: before.keymap_set || before.ready, ..before },
                        ..old(self)@
                    })
                },
            },
    {
        let same = match last {
            Some(t) => *t == text,
            None => false,
        };
        if same {
            return Loaded::Same;
        }
        let forward = self.input.set_keymap();
        *last = Some(text);
        Loaded::New { forward }
    }

    /// The tables that X clients see are made from a keymap, if they can be; and the
    /// clients are told to read the mapping again, since vncagent caches it. `sets` has
    /// which modifiers each key sets. Returns whether there are new tables.
    pub fn tabulate_keymap(&mut self, keymap: &xkbcommon_rs::Keymap, sets: &Vec<Option<u32>>) -> (made: bool)
        requires
            old(self).wf(),
            sets@.len() <= keymap::KEYS,
        ensures
            final(self).wf(),
            final(self).framebuffer == old(self).framebuffer,
            made == (keymap::mod_total(*keymap) < 32),
            !made ==> final(self)@ == old(self)@,
            made ==> exists|t: keymap::KeyTable|
                #[trigger] keymap::tabulates(t, *keymap, sets@) && final(self)@ == (ServerView {
                    keymap: Some((t.syms@, t.modmap@)),
                    events: sink::each_live(old(self)@.events, sink::hears_mapping(8, 248)),
                    ..old(self)@
                }),
    {
        match keymap::build(keymap, sets) {
            Some(table) => {
                let ghost t = table;
                self.keymap = Some(table);
                self.events.keyboard_mapping_changed(MIN_KEYCODE, MAX_KEYCODE - MIN_KEYCODE + 1);
                assert(keymap::tabulates(t, *keymap, sets@));
                true
            },
            None => false,
        }
    }
}

/// The text of a keymap is what stands before its first zero byte, or all of it.
pub proof fn law_keymap_ends_at_its_zero(text: Seq<u8>, rest: Seq<u8>)
    requires
        forall|i: int| 0 <= i < text.len() ==> #[trigger] text[i] != 0,
    ensures
        before_zero(text + seq![0u8] + rest) == text,
        before_zero(text) == text,
{
    let s = text + seq![0u8] + rest;
    let p = |b: u8| b == 0;
    assert forall|j: int| 0 <= j < text.len() implies !p(#[trigger] s[j]) by {
        assert(s[j] == text[j]);
    }
    list::lemma_first_index_is(s, p, text.len() as int);
    assert(s.take(text.len() as int) =~= text);
    list::lemma_first_index_none(text, p);
}

} // verus!
