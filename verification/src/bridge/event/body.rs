//! The events that are sent, as bytes. Every event is 32 bytes long; its sequence
//! number, at `[2..4]`, is stamped when it is queued and is 0 until then.

use crate::util::geometry::Rectangle;
use crate::bridge::x11::wire;
use vstd::prelude::*;

verus! {

pub const PROPERTY_NOTIFY: u8 = 28;

pub const SELECTION_CLEAR: u8 = 29;

pub const SELECTION_REQUEST: u8 = 30;

pub const SELECTION_NOTIFY: u8 = 31;

pub const CONFIGURE_NOTIFY: u8 = 22;

pub const MAPPING_NOTIFY: u8 = 34;

/// The head of an event: its code, a detail and room for the sequence number.
pub open spec fn head(code: u8, detail: u8) -> Seq<u8> {
    seq![code, detail, 0u8, 0u8]
}

fn begin(code: u8, detail: u8) -> (v: Vec<u8>)
    ensures
        v@ == head(code, detail),
{
    let mut v: Vec<u8> = Vec::with_capacity(32);
    v.push(code);
    v.push(detail);
    v.push(0);
    v.push(0);
    assert(v@ =~= head(code, detail));
    v
}

/// `SelectionClear`: the owner has lost the selection.
pub open spec fn selection_clear_bytes(time: u32, owner: u32, selection: u32) -> Seq<u8> {
    wire::padded_event(
        head(SELECTION_CLEAR, 0) + wire::le32(time) + wire::le32(owner) + wire::le32(selection),
    )
}

pub fn selection_clear(time: u32, owner: u32, selection: u32) -> (v: Vec<u8>)
    ensures
        v@ == selection_clear_bytes(time, owner, selection),
        v@.len() == 32,
{
    let mut v = begin(SELECTION_CLEAR, 0);
    wire::put32(&mut v, time);
    wire::put32(&mut v, owner);
    wire::put32(&mut v, selection);
    wire::pad_event(&mut v);
    v
}

/// `SelectionRequest`: an owner is asked to convert its selection.
pub open spec fn selection_request_bytes(
    time: u32,
    owner: u32,
    requestor: u32,
    selection: u32,
    target: u32,
    property: u32,
) -> Seq<u8> {
    wire::padded_event(
        head(SELECTION_REQUEST, 0) + wire::le32(time) + wire::le32(owner) + wire::le32(requestor) + wire::le32(
            selection,
        ) + wire::le32(target) + wire::le32(property),
    )
}

pub fn selection_request(time: u32, owner: u32, requestor: u32, selection: u32, target: u32, property: u32) -> (v: Vec<
    u8,
>)
    ensures
        v@ == selection_request_bytes(time, owner, requestor, selection, target, property),
        v@.len() == 32,
{
    let mut v = begin(SELECTION_REQUEST, 0);
    wire::put32(&mut v, time);
    wire::put32(&mut v, owner);
    wire::put32(&mut v, requestor);
    wire::put32(&mut v, selection);
    wire::put32(&mut v, target);
    wire::put32(&mut v, property);
    wire::pad_event(&mut v);
    v
}

/// `SelectionNotify`: the answer to a conversion; property 0 is a refusal.
pub open spec fn selection_notify_bytes(time: u32, requestor: u32, selection: u32, target: u32, property: u32) -> Seq<
    u8,
> {
    wire::padded_event(
        head(SELECTION_NOTIFY, 0) + wire::le32(time) + wire::le32(requestor) + wire::le32(selection) + wire::le32(
            target,
        ) + wire::le32(property),
    )
}

pub fn selection_notify(time: u32, requestor: u32, selection: u32, target: u32, property: u32) -> (v: Vec<u8>)
    ensures
        v@ == selection_notify_bytes(time, requestor, selection, target, property),
        v@.len() == 32,
{
    let mut v = begin(SELECTION_NOTIFY, 0);
    wire::put32(&mut v, time);
    wire::put32(&mut v, requestor);
    wire::put32(&mut v, selection);
    wire::put32(&mut v, target);
    wire::put32(&mut v, property);
    wire::pad_event(&mut v);
    v
}

/// `PropertyNotify`: a property has a new value (0) or was deleted (1).
pub open spec fn property_notify_bytes(window: u32, atom: u32, time: u32, deleted: bool) -> Seq<u8> {
    wire::padded_event(
        head(PROPERTY_NOTIFY, 0) + wire::le32(window) + wire::le32(atom) + wire::le32(time) + seq![
            if deleted { 1u8 } else { 0u8 },
        ],
    )
}

pub fn property_notify(window: u32, atom: u32, time: u32, deleted: bool) -> (v: Vec<u8>)
    ensures
        v@ == property_notify_bytes(window, atom, time, deleted),
        v@.len() == 32,
{
    let mut v = begin(PROPERTY_NOTIFY, 0);
    wire::put32(&mut v, window);
    wire::put32(&mut v, atom);
    wire::put32(&mut v, time);
    let ghost v0 = v@;
    v.push(if deleted { 1 } else { 0 });
    assert(v@ =~= v0 + seq![if deleted { 1u8 } else { 0u8 }]);
    wire::pad_event(&mut v);
    v
}

/// `ConfigureNotify` of a window: it has that size at the origin.
pub open spec fn configure_notify_bytes(window: u32, width: u16, height: u16) -> Seq<u8> {
    wire::padded_event(
        head(CONFIGURE_NOTIFY, 0) + wire::le32(window) + wire::le32(window) + wire::le32(0) + wire::le16(0)
            + wire::le16(0) + wire::le16(width) + wire::le16(height),
    )
}

pub fn configure_notify(window: u32, width: u16, height: u16) -> (v: Vec<u8>)
    ensures
        v@ == configure_notify_bytes(window, width, height),
        v@.len() == 32,
{
    let mut v = begin(CONFIGURE_NOTIFY, 0);
    wire::put32(&mut v, window);
    wire::put32(&mut v, window);
    wire::put32(&mut v, 0);
    wire::put16(&mut v, 0);
    wire::put16(&mut v, 0);
    wire::put16(&mut v, width);
    wire::put16(&mut v, height);
    wire::pad_event(&mut v);
    v
}

/// `MappingNotify`: the modifier (0) or keyboard (1) table changed.
pub open spec fn mapping_notify_bytes(request: u8, first_keycode: u8, count: u8) -> Seq<u8> {
    wire::padded_event(head(MAPPING_NOTIFY, 0) + seq![request, first_keycode, count])
}

pub fn mapping_notify(request: u8, first_keycode: u8, count: u8) -> (v: Vec<u8>)
    ensures
        v@ == mapping_notify_bytes(request, first_keycode, count),
        v@.len() == 32,
{
    let mut v = begin(MAPPING_NOTIFY, 0);
    let ghost v0 = v@;
    v.push(request);
    v.push(first_keycode);
    v.push(count);
    assert(v@ =~= v0 + seq![request, first_keycode, count]);
    wire::pad_event(&mut v);
    v
}

/// RandR's `ScreenChangeNotify`, for an unrotated screen of which nothing is known
/// about subpixels.
pub open spec fn screen_change_bytes(
    code: u8,
    timestamp: u32,
    config_timestamp: u32,
    root: u32,
    window: u32,
    width: u16,
    height: u16,
    mwidth: u16,
    mheight: u16,
) -> Seq<u8> {
    wire::padded_event(
        head(code, 1) + wire::le32(timestamp) + wire::le32(config_timestamp) + wire::le32(root) + wire::le32(window)
            + wire::le16(0) + wire::le16(0) + wire::le16(width) + wire::le16(height) + wire::le16(mwidth)
            + wire::le16(mheight),
    )
}

pub fn screen_change(
    code: u8,
    timestamp: u32,
    config_timestamp: u32,
    root: u32,
    window: u32,
    width: u16,
    height: u16,
    mwidth: u16,
    mheight: u16,
) -> (v: Vec<u8>)
    ensures
        v@ == screen_change_bytes(code, timestamp, config_timestamp, root, window, width, height, mwidth, mheight),
        v@.len() == 32,
{
    let mut v = begin(code, 1);
    wire::put32(&mut v, timestamp);
    wire::put32(&mut v, config_timestamp);
    wire::put32(&mut v, root);
    wire::put32(&mut v, window);
    wire::put16(&mut v, 0);
    wire::put16(&mut v, 0);
    wire::put16(&mut v, width);
    wire::put16(&mut v, height);
    wire::put16(&mut v, mwidth);
    wire::put16(&mut v, mheight);
    wire::pad_event(&mut v);
    v
}

/// XFixes' `SelectionNotify`.
pub open spec fn owner_changed_bytes(
    code: u8,
    subtype: u8,
    window: u32,
    owner: u32,
    selection: u32,
    timestamp: u32,
    selection_timestamp: u32,
) -> Seq<u8> {
    wire::padded_event(
        head(code, subtype) + wire::le32(window) + wire::le32(owner) + wire::le32(selection) + wire::le32(timestamp)
            + wire::le32(selection_timestamp),
    )
}

pub fn owner_changed(
    code: u8,
    subtype: u8,
    window: u32,
    owner: u32,
    selection: u32,
    timestamp: u32,
    selection_timestamp: u32,
) -> (v: Vec<u8>)
    ensures
        v@ == owner_changed_bytes(code, subtype, window, owner, selection, timestamp, selection_timestamp),
        v@.len() == 32,
{
    let mut v = begin(code, subtype);
    wire::put32(&mut v, window);
    wire::put32(&mut v, owner);
    wire::put32(&mut v, selection);
    wire::put32(&mut v, timestamp);
    wire::put32(&mut v, selection_timestamp);
    wire::pad_event(&mut v);
    v
}

/// XFixes' `CursorNotify`: the display cursor changed. It has no name.
pub open spec fn cursor_changed_bytes(code: u8, window: u32, serial: u32, timestamp: u32) -> Seq<u8> {
    wire::padded_event(head(code, 0) + wire::le32(window) + wire::le32(serial) + wire::le32(timestamp))
}

pub fn cursor_changed(code: u8, window: u32, serial: u32, timestamp: u32) -> (v: Vec<u8>)
    ensures
        v@ == cursor_changed_bytes(code, window, serial, timestamp),
        v@.len() == 32,
{
    let mut v = begin(code, 0);
    wire::put32(&mut v, window);
    wire::put32(&mut v, serial);
    wire::put32(&mut v, timestamp);
    wire::pad_event(&mut v);
    v
}

/// `DamageNotify`.
pub open spec fn damage_bytes(
    code: u8,
    level: u8,
    drawable: u32,
    damage: u32,
    timestamp: u32,
    area: Rectangle,
    geometry: Rectangle,
) -> Seq<u8> {
    wire::padded_event(
        head(code, level) + wire::le32(drawable) + wire::le32(damage) + wire::le32(timestamp) + wire::le_rect(area)
            + wire::le_rect(geometry),
    )
}

pub fn damage_notify(
    code: u8,
    level: u8,
    drawable: u32,
    damage: u32,
    timestamp: u32,
    area: Rectangle,
    geometry: Rectangle,
) -> (v: Vec<u8>)
    ensures
        v@ == damage_bytes(code, level, drawable, damage, timestamp, area, geometry),
        v@.len() == 32,
{
    let mut v = begin(code, level);
    wire::put32(&mut v, drawable);
    wire::put32(&mut v, damage);
    wire::put32(&mut v, timestamp);
    wire::put_rect(&mut v, area);
    wire::put_rect(&mut v, geometry);
    wire::pad_event(&mut v);
    v
}

/// `SelectionClear` has its fields where the protocol has them.
pub proof fn law_selection_clear_fields(time: u32, owner: u32, selection: u32)
    ensures
        ({
            let b = selection_clear_bytes(time, owner, selection);
            &&& b.len() == 32
            &&& b[0] == 29
            &&& wire::u32_at(b, 4) == time
            &&& wire::u32_at(b, 8) == owner
            &&& wire::u32_at(b, 12) == selection
        }),
{
    let b = selection_clear_bytes(time, owner, selection);
    assert(b.subrange(4, 8) =~= wire::le32(time));
    wire::lemma_reads_32(b, 4, time);
    assert(b.subrange(8, 12) =~= wire::le32(owner));
    wire::lemma_reads_32(b, 8, owner);
    assert(b.subrange(12, 16) =~= wire::le32(selection));
    wire::lemma_reads_32(b, 12, selection);
}

/// `SelectionRequest` has its fields where the protocol has them.
pub proof fn law_selection_request_fields(
    time: u32,
    owner: u32,
    requestor: u32,
    selection: u32,
    target: u32,
    property: u32,
)
    ensures
        ({
            let b = selection_request_bytes(time, owner, requestor, selection, target, property);
            &&& b.len() == 32
            &&& b[0] == 30
            &&& wire::u32_at(b, 4) == time
            &&& wire::u32_at(b, 8) == owner
            &&& wire::u32_at(b, 12) == requestor
            &&& wire::u32_at(b, 16) == selection
            &&& wire::u32_at(b, 20) == target
            &&& wire::u32_at(b, 24) == property
        }),
{
    let b = selection_request_bytes(time, owner, requestor, selection, target, property);
    assert(b.subrange(4, 8) =~= wire::le32(time));
    wire::lemma_reads_32(b, 4, time);
    assert(b.subrange(8, 12) =~= wire::le32(owner));
    wire::lemma_reads_32(b, 8, owner);
    assert(b.subrange(12, 16) =~= wire::le32(requestor));
    wire::lemma_reads_32(b, 12, requestor);
    assert(b.subrange(16, 20) =~= wire::le32(selection));
    wire::lemma_reads_32(b, 16, selection);
    assert(b.subrange(20, 24) =~= wire::le32(target));
    wire::lemma_reads_32(b, 20, target);
    assert(b.subrange(24, 28) =~= wire::le32(property));
    wire::lemma_reads_32(b, 24, property);
}

/// `SelectionNotify` has its fields where the protocol has them.
pub proof fn law_selection_notify_fields(time: u32, requestor: u32, selection: u32, target: u32, property: u32)
    ensures
        ({
            let b = selection_notify_bytes(time, requestor, selection, target, property);
            &&& b.len() == 32
            &&& b[0] == 31
            &&& wire::u32_at(b, 4) == time
            &&& wire::u32_at(b, 8) == requestor
            &&& wire::u32_at(b, 12) == selection
            &&& wire::u32_at(b, 16) == target
            &&& wire::u32_at(b, 20) == property
        }),
{
    let b = selection_notify_bytes(time, requestor, selection, target, property);
    assert(b.subrange(4, 8) =~= wire::le32(time));
    wire::lemma_reads_32(b, 4, time);
    assert(b.subrange(8, 12) =~= wire::le32(requestor));
    wire::lemma_reads_32(b, 8, requestor);
    assert(b.subrange(12, 16) =~= wire::le32(selection));
    wire::lemma_reads_32(b, 12, selection);
    assert(b.subrange(16, 20) =~= wire::le32(target));
    wire::lemma_reads_32(b, 16, target);
    assert(b.subrange(20, 24) =~= wire::le32(property));
    wire::lemma_reads_32(b, 20, property);
}

/// `PropertyNotify` has its fields where the protocol has them; the state of a property
/// that was deleted is 1.
pub proof fn law_property_notify_fields(window: u32, atom: u32, time: u32, deleted: bool)
    ensures
        ({
            let b = property_notify_bytes(window, atom, time, deleted);
            &&& b.len() == 32
            &&& b[0] == 28
            &&& wire::u32_at(b, 4) == window
            &&& wire::u32_at(b, 8) == atom
            &&& wire::u32_at(b, 12) == time
            &&& b[16] == (if deleted { 1u8 } else { 0u8 })
        }),
{
    let b = property_notify_bytes(window, atom, time, deleted);
    assert(b.subrange(4, 8) =~= wire::le32(window));
    wire::lemma_reads_32(b, 4, window);
    assert(b.subrange(8, 12) =~= wire::le32(atom));
    wire::lemma_reads_32(b, 8, atom);
    assert(b.subrange(12, 16) =~= wire::le32(time));
    wire::lemma_reads_32(b, 12, time);
}

/// `ConfigureNotify` has its fields where the protocol has them: the window is its own
/// event window, has no sibling below it and is at the origin.
pub proof fn law_configure_notify_fields(window: u32, width: u16, height: u16)
    ensures
        ({
            let b = configure_notify_bytes(window, width, height);
            &&& b.len() == 32
            &&& b[0] == 22
            &&& wire::u32_at(b, 4) == window
            &&& wire::u32_at(b, 8) == window
            &&& wire::u32_at(b, 12) == 0u32
            &&& wire::u16_at(b, 16) == 0u16
            &&& wire::u16_at(b, 18) == 0u16
            &&& wire::u16_at(b, 20) == width
            &&& wire::u16_at(b, 22) == height
        }),
{
    let b = configure_notify_bytes(window, width, height);
    assert(b.subrange(4, 8) =~= wire::le32(window));
    wire::lemma_reads_32(b, 4, window);
    assert(b.subrange(8, 12) =~= wire::le32(window));
    wire::lemma_reads_32(b, 8, window);
    assert(b.subrange(12, 16) =~= wire::le32(0u32));
    wire::lemma_reads_32(b, 12, 0u32);
    assert(b.subrange(16, 18) =~= wire::le16(0u16));
    wire::lemma_reads_16(b, 16, 0u16);
    assert(b.subrange(18, 20) =~= wire::le16(0u16));
    wire::lemma_reads_16(b, 18, 0u16);
    assert(b.subrange(20, 22) =~= wire::le16(width));
    wire::lemma_reads_16(b, 20, width);
    assert(b.subrange(22, 24) =~= wire::le16(height));
    wire::lemma_reads_16(b, 22, height);
}

/// `MappingNotify` has its fields where the protocol has them.
pub proof fn law_mapping_notify_fields(request: u8, first_keycode: u8, count: u8)
    ensures
        ({
            let b = mapping_notify_bytes(request, first_keycode, count);
            &&& b.len() == 32
            &&& b[0] == 34
            &&& b[4] == request
            &&& b[5] == first_keycode
            &&& b[6] == count
        }),
{
    let b = mapping_notify_bytes(request, first_keycode, count);

}

/// `ScreenChangeNotify` has its fields where RandR has them: rotation 1 is none.
pub proof fn law_screen_change_fields(
    code: u8,
    timestamp: u32,
    config_timestamp: u32,
    root: u32,
    window: u32,
    width: u16,
    height: u16,
    mwidth: u16,
    mheight: u16,
)
    ensures
        ({
            let b = screen_change_bytes(code, timestamp, config_timestamp, root, window, width, height, mwidth, mheight);
            &&& b.len() == 32
            &&& b[0] == code
            &&& b[1] == 1
            &&& wire::u32_at(b, 4) == timestamp
            &&& wire::u32_at(b, 8) == config_timestamp
            &&& wire::u32_at(b, 12) == root
            &&& wire::u32_at(b, 16) == window
            &&& wire::u16_at(b, 20) == 0u16
            &&& wire::u16_at(b, 22) == 0u16
            &&& wire::u16_at(b, 24) == width
            &&& wire::u16_at(b, 26) == height
            &&& wire::u16_at(b, 28) == mwidth
            &&& wire::u16_at(b, 30) == mheight
        }),
{
    let b = screen_change_bytes(code, timestamp, config_timestamp, root, window, width, height, mwidth, mheight);
    assert(b.subrange(4, 8) =~= wire::le32(timestamp));
    wire::lemma_reads_32(b, 4, timestamp);
    assert(b.subrange(8, 12) =~= wire::le32(config_timestamp));
    wire::lemma_reads_32(b, 8, config_timestamp);
    assert(b.subrange(12, 16) =~= wire::le32(root));
    wire::lemma_reads_32(b, 12, root);
    assert(b.subrange(16, 20) =~= wire::le32(window));
    wire::lemma_reads_32(b, 16, window);
    assert(b.subrange(20, 22) =~= wire::le16(0u16));
    wire::lemma_reads_16(b, 20, 0u16);
    assert(b.subrange(22, 24) =~= wire::le16(0u16));
    wire::lemma_reads_16(b, 22, 0u16);
    assert(b.subrange(24, 26) =~= wire::le16(width));
    wire::lemma_reads_16(b, 24, width);
    assert(b.subrange(26, 28) =~= wire::le16(height));
    wire::lemma_reads_16(b, 26, height);
    assert(b.subrange(28, 30) =~= wire::le16(mwidth));
    wire::lemma_reads_16(b, 28, mwidth);
    assert(b.subrange(30, 32) =~= wire::le16(mheight));
    wire::lemma_reads_16(b, 30, mheight);
}

/// XFixes' `SelectionNotify` has its fields where the extension has them.
pub proof fn law_owner_changed_fields(
    code: u8,
    subtype: u8,
    window: u32,
    owner: u32,
    selection: u32,
    timestamp: u32,
    selection_timestamp: u32,
)
    ensures
        ({
            let b = owner_changed_bytes(code, subtype, window, owner, selection, timestamp, selection_timestamp);
            &&& b.len() == 32
            &&& b[0] == code
            &&& b[1] == subtype
            &&& wire::u32_at(b, 4) == window
            &&& wire::u32_at(b, 8) == owner
            &&& wire::u32_at(b, 12) == selection
            &&& wire::u32_at(b, 16) == timestamp
            &&& wire::u32_at(b, 20) == selection_timestamp
        }),
{
    let b = owner_changed_bytes(code, subtype, window, owner, selection, timestamp, selection_timestamp);
    assert(b.subrange(4, 8) =~= wire::le32(window));
    wire::lemma_reads_32(b, 4, window);
    assert(b.subrange(8, 12) =~= wire::le32(owner));
    wire::lemma_reads_32(b, 8, owner);
    assert(b.subrange(12, 16) =~= wire::le32(selection));
    wire::lemma_reads_32(b, 12, selection);
    assert(b.subrange(16, 20) =~= wire::le32(timestamp));
    wire::lemma_reads_32(b, 16, timestamp);
    assert(b.subrange(20, 24) =~= wire::le32(selection_timestamp));
    wire::lemma_reads_32(b, 20, selection_timestamp);
}

/// XFixes' `CursorNotify` has its fields where the extension has them.
pub proof fn law_cursor_changed_fields(code: u8, window: u32, serial: u32, timestamp: u32)
    ensures
        ({
            let b = cursor_changed_bytes(code, window, serial, timestamp);
            &&& b.len() == 32
            &&& b[0] == code
            &&& b[1] == 0
            &&& wire::u32_at(b, 4) == window
            &&& wire::u32_at(b, 8) == serial
            &&& wire::u32_at(b, 12) == timestamp
            &&& wire::u32_at(b, 16) == 0u32
        }),
{
    let b = cursor_changed_bytes(code, window, serial, timestamp);
    assert(b.subrange(4, 8) =~= wire::le32(window));
    wire::lemma_reads_32(b, 4, window);
    assert(b.subrange(8, 12) =~= wire::le32(serial));
    wire::lemma_reads_32(b, 8, serial);
    assert(b.subrange(12, 16) =~= wire::le32(timestamp));
    wire::lemma_reads_32(b, 12, timestamp);
    assert(b.subrange(16, 20) =~= wire::le32(0u32));
    wire::lemma_reads_32(b, 16, 0u32);
}

/// `DamageNotify` has its fields where the extension has them.
pub proof fn law_damage_fields(
    code: u8,
    level: u8,
    drawable: u32,
    damage: u32,
    timestamp: u32,
    area: Rectangle,
    geometry: Rectangle,
)
    ensures
        ({
            let b = damage_bytes(code, level, drawable, damage, timestamp, area, geometry);
            &&& b.len() == 32
            &&& b[0] == code
            &&& b[1] == level
            &&& wire::u32_at(b, 4) == drawable
            &&& wire::u32_at(b, 8) == damage
            &&& wire::u32_at(b, 12) == timestamp
            &&& wire::rect_at(b, 16) == area
            &&& wire::rect_at(b, 24) == geometry
        }),
{
    let b = damage_bytes(code, level, drawable, damage, timestamp, area, geometry);
    assert(b.subrange(4, 8) =~= wire::le32(drawable));
    wire::lemma_reads_32(b, 4, drawable);
    assert(b.subrange(8, 12) =~= wire::le32(damage));
    wire::lemma_reads_32(b, 8, damage);
    assert(b.subrange(12, 16) =~= wire::le32(timestamp));
    wire::lemma_reads_32(b, 12, timestamp);
    wire::law_rectangles_read_back(area, b.take(16), b.skip(24));
    assert(b.take(16) + wire::le_rect(area) + b.skip(24) =~= b);
    wire::law_rectangles_read_back(geometry, b.take(24), b.skip(32));
    assert(b.take(24) + wire::le_rect(geometry) + b.skip(32) =~= b);
}

} // verus!
